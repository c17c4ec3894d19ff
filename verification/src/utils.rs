//! Small helpers that fit nowhere else.

use vstd::prelude::*;
use vstd::string::StringExecFns;

verus! {

/// The names of the optional features that are built in, with a comma and a space between
/// them, or `None` where there are none.
pub open spec fn feature_flags(support_modern_dds: bool, support_rigidmodel: bool) -> Seq<char> {
    if support_modern_dds && support_rigidmodel {
        "support_modern_dds"@ + ", "@ + "support_rigidmodel"@
    } else if support_modern_dds {
        "support_modern_dds"@
    } else if support_rigidmodel {
        "support_rigidmodel"@
    } else {
        "None"@
    }
}

/// The optional features that are built in, as a text for people to read.
pub fn get_feature_flags(support_modern_dds: bool, support_rigidmodel: bool) -> (r: String)
    ensures
        r@ == feature_flags(support_modern_dds, support_rigidmodel),
{
    let mut feature_flags = String::new();
    if support_modern_dds {
        feature_flags.append("support_modern_dds");
    }
    if support_rigidmodel {
        if !feature_flags.as_str().is_empty() {
            feature_flags.append(", ");
        }
        feature_flags.append("support_rigidmodel");
    }
    if feature_flags.as_str().is_empty() {
        feature_flags.append("None");
    }
    proof {
        reveal_strlit("support_modern_dds");
        reveal_strlit("support_rigidmodel");
        reveal_strlit(", ");
        reveal_strlit("None");
        assert(feature_flags@ =~= self::feature_flags(support_modern_dds, support_rigidmodel));
    }
    feature_flags
}

/// The colours of the dark theme.
pub const MEDIUM_DARKER_GREY: &'static str = "#262626";

pub const DARK_GREY: &'static str = "#181818";

pub const SLIGHTLY_DARKER_GREY: &'static str = "#101010";

pub const KINDA_WHITY_GREY: &'static str = "#BBBBBB";

pub const EVEN_MORE_WHITY_GREY: &'static str = "#FAFAFA";

pub const ORANGE: &'static str = "#E67E22";

/// The rules for buttons: no rounded corners, a dark background that is darker when the
/// button is pressed, and borders in colour.
pub open spec fn button_rules() -> Seq<char> {
    "
        /* Normal buttons, with no rounded corners, dark background (darker when enabled), and colored borders. */

        QPushButton {
            border-style: solid;
            border-width: 1px;
            padding-top: 5px;
            padding-bottom: 4px;
            padding-left: 10px;
            padding-right: 10px;
            border-color: "@
        + SLIGHTLY_DARKER_GREY@
        + ";
            color: "@
        + KINDA_WHITY_GREY@
        + ";
            background-color: "@
        + MEDIUM_DARKER_GREY@
        + ";
        }
        QPushButton:hover {
            border-color: "@
        + ORANGE@
        + ";
            color: "@
        + EVEN_MORE_WHITY_GREY@
        + ";
            background-color: "@
        + DARK_GREY@
        + ";
        }
        QPushButton:pressed {
            border-color: "@
        + ORANGE@
        + ";
            color: "@
        + EVEN_MORE_WHITY_GREY@
        + ";
            background-color: "@
        + SLIGHTLY_DARKER_GREY@
        + ";
        }
        QPushButton:checked {
            border-color: "@
        + ORANGE@
        + ";
            background-color: "@
        + SLIGHTLY_DARKER_GREY@
        + ";
        }
        QPushButton:disabled {
            color: #808086;
            background-color: "@
        + MEDIUM_DARKER_GREY@
        + ";
        }

"@
}

/// Writes the rules for buttons.
fn write_button_rules() -> (r: String)
    ensures
        r@ == button_rules(),
{
    let mut sheet: String = "
        /* Normal buttons, with no rounded corners, dark background (darker when enabled), and colored borders. */

        QPushButton {
            border-style: solid;
            border-width: 1px;
            padding-top: 5px;
            padding-bottom: 4px;
            padding-left: 10px;
            padding-right: 10px;
            border-color: ".to_owned();
    sheet.append(SLIGHTLY_DARKER_GREY);
    sheet.append(";
            color: ");
    sheet.append(KINDA_WHITY_GREY);
    sheet.append(";
            background-color: ");
    sheet.append(MEDIUM_DARKER_GREY);
    sheet.append(";
        }
        QPushButton:hover {
            border-color: ");
    sheet.append(ORANGE);
    sheet.append(";
            color: ");
    sheet.append(EVEN_MORE_WHITY_GREY);
    sheet.append(";
            background-color: ");
    sheet.append(DARK_GREY);
    sheet.append(";
        }
        QPushButton:pressed {
            border-color: ");
    sheet.append(ORANGE);
    sheet.append(";
            color: ");
    sheet.append(EVEN_MORE_WHITY_GREY);
    sheet.append(";
            background-color: ");
    sheet.append(SLIGHTLY_DARKER_GREY);
    sheet.append(";
        }
        QPushButton:checked {
            border-color: ");
    sheet.append(ORANGE);
    sheet.append(";
            background-color: ");
    sheet.append(SLIGHTLY_DARKER_GREY);
    sheet.append(";
        }
        QPushButton:disabled {
            color: #808086;
            background-color: ");
    sheet.append(MEDIUM_DARKER_GREY);
    sheet.append(";
        }

");
    sheet
}

/// The rules for checkboxes.
pub open spec fn checkbox_rules(assets_path: Seq<char>) -> Seq<char> {
    "        /* Normal checkboxes */
        QCheckBox::indicator:unchecked {
            border-style: solid;
            border-width: 1px;
            border-color: "@
        + KINDA_WHITY_GREY@
        + ";
        }
        /* Disabled due to the evanesce check bug.
        QCheckBox::indicator:checked {
            height: 12px;
            width: 12px;
            border-style: solid;
            border-width: 1px;
            border-color: "@
        + KINDA_WHITY_GREY@
        + ";
            image:url("@
        + assets_path
        + "/icons/checkbox_check.png);
        }
        QCheckBox::indicator:hover {
            border-style: solid;
            border-width: 1px;
            border-color: "@
        + ORANGE@
        + ";
        }
        */

"@
}

/// Writes the rules for checkboxes.
fn write_checkbox_rules(assets_path: &str) -> (r: String)
    ensures
        r@ == checkbox_rules(assets_path@),
{
    let mut sheet: String = "        /* Normal checkboxes */
        QCheckBox::indicator:unchecked {
            border-style: solid;
            border-width: 1px;
            border-color: ".to_owned();
    sheet.append(KINDA_WHITY_GREY);
    sheet.append(";
        }
        /* Disabled due to the evanesce check bug.
        QCheckBox::indicator:checked {
            height: 12px;
            width: 12px;
            border-style: solid;
            border-width: 1px;
            border-color: ");
    sheet.append(KINDA_WHITY_GREY);
    sheet.append(";
            image:url(");
    sheet.append(assets_path);
    sheet.append("/icons/checkbox_check.png);
        }
        QCheckBox::indicator:hover {
            border-style: solid;
            border-width: 1px;
            border-color: ");
    sheet.append(ORANGE);
    sheet.append(";
        }
        */

");
    sheet
}

/// The rules for the checkboxes of tables, white so that they can be seen.
pub open spec fn table_view_rules(assets_path: Seq<char>) -> Seq<char> {
    "        /* Tweaked TableView, so the Checkboxes are white and easy to see. */

        /* Checkboxes */
        QTableView::indicator:unchecked {
            border-style: solid;
            border-width: 1px;
            border-color: "@
        + KINDA_WHITY_GREY@
        + ";
        }

        /* Disabled due to the evanesce check bug.
        QTableView::indicator:hover {
            border-style: solid;
            border-width: 1px;
            border-color: "@
        + ORANGE@
        + ";
        }
        QTableView::indicator:checked {
            border-style: solid;
            border-width: 1px;
            border-color: "@
        + KINDA_WHITY_GREY@
        + ";
            image:url("@
        + assets_path
        + "/icons/checkbox_check.png);
        }
        */
"@
}

/// Writes the rules for table views.
fn write_table_view_rules(assets_path: &str) -> (r: String)
    ensures
        r@ == table_view_rules(assets_path@),
{
    let mut sheet: String = "        /* Tweaked TableView, so the Checkboxes are white and easy to see. */

        /* Checkboxes */
        QTableView::indicator:unchecked {
            border-style: solid;
            border-width: 1px;
            border-color: ".to_owned();
    sheet.append(KINDA_WHITY_GREY);
    sheet.append(";
        }

        /* Disabled due to the evanesce check bug.
        QTableView::indicator:hover {
            border-style: solid;
            border-width: 1px;
            border-color: ");
    sheet.append(ORANGE);
    sheet.append(";
        }
        QTableView::indicator:checked {
            border-style: solid;
            border-width: 1px;
            border-color: ");
    sheet.append(KINDA_WHITY_GREY);
    sheet.append(";
            image:url(");
    sheet.append(assets_path);
    sheet.append("/icons/checkbox_check.png);
        }
        */
");
    sheet
}

/// The rules for line edits, which look as the buttons do.
pub open spec fn line_edit_rules() -> Seq<char> {
    "        /* Normal LineEdits, with no rounded corners, dark background (darker when enabled), and colored borders. */

        QLineEdit {
            border-style: solid;
            border-width: 1px;
            padding-top: 3px;
            padding-bottom: 3px;
            padding-left: 3px;
            padding-right: 3px;
            border-color: "@
        + SLIGHTLY_DARKER_GREY@
        + ";
            color: "@
        + KINDA_WHITY_GREY@
        + ";
            background-color: "@
        + MEDIUM_DARKER_GREY@
        + ";
        }
        QLineEdit:hover {
            border-color: "@
        + ORANGE@
        + ";
            color: "@
        + EVEN_MORE_WHITY_GREY@
        + ";
            background-color: "@
        + DARK_GREY@
        + ";
        }

        QLineEdit:disabled {
            color: #808086;
            background-color: "@
        + MEDIUM_DARKER_GREY@
        + ";
        }

"@
}

/// Writes the rules for line edits.
fn write_line_edit_rules() -> (r: String)
    ensures
        r@ == line_edit_rules(),
{
    let mut sheet: String = "        /* Normal LineEdits, with no rounded corners, dark background (darker when enabled), and colored borders. */

        QLineEdit {
            border-style: solid;
            border-width: 1px;
            padding-top: 3px;
            padding-bottom: 3px;
            padding-left: 3px;
            padding-right: 3px;
            border-color: ".to_owned();
    sheet.append(SLIGHTLY_DARKER_GREY);
    sheet.append(";
            color: ");
    sheet.append(KINDA_WHITY_GREY);
    sheet.append(";
            background-color: ");
    sheet.append(MEDIUM_DARKER_GREY);
    sheet.append(";
        }
        QLineEdit:hover {
            border-color: ");
    sheet.append(ORANGE);
    sheet.append(";
            color: ");
    sheet.append(EVEN_MORE_WHITY_GREY);
    sheet.append(";
            background-color: ");
    sheet.append(DARK_GREY);
    sheet.append(";
        }

        QLineEdit:disabled {
            color: #808086;
            background-color: ");
    sheet.append(MEDIUM_DARKER_GREY);
    sheet.append(";
        }

");
    sheet
}

/// The rules for combos, which are switched off.
pub open spec fn combo_rules() -> Seq<char> {
    "        /* Combos, similar to buttons. */
        /* Disabled due to the unlimited items bug.
        QComboBox {
            border-style: solid;
            border-width: 1px;
            padding-top: 3px;
            padding-bottom: 3px;
            padding-left: 10px;
            padding-right: 10px;
            border-color: "@
        + SLIGHTLY_DARKER_GREY@
        + ";
            color: "@
        + KINDA_WHITY_GREY@
        + ";
            background-color: "@
        + MEDIUM_DARKER_GREY@
        + ";
        }*/

"@
}

/// Writes the rules for combos.
fn write_combo_rules() -> (r: String)
    ensures
        r@ == combo_rules(),
{
    let mut sheet: String = "        /* Combos, similar to buttons. */
        /* Disabled due to the unlimited items bug.
        QComboBox {
            border-style: solid;
            border-width: 1px;
            padding-top: 3px;
            padding-bottom: 3px;
            padding-left: 10px;
            padding-right: 10px;
            border-color: ".to_owned();
    sheet.append(SLIGHTLY_DARKER_GREY);
    sheet.append(";
            color: ");
    sheet.append(KINDA_WHITY_GREY);
    sheet.append(";
            background-color: ");
    sheet.append(MEDIUM_DARKER_GREY);
    sheet.append(";
        }*/

");
    sheet
}

/// The rules for tree views: no rounded corners, and darker.
pub open spec fn tree_view_rules() -> Seq<char> {
    "        /* TreeView, with no rounded corners and darker. */
        QTreeView {
            border-style: solid;
            border-width: 1px;
            border-color: "@
        + SLIGHTLY_DARKER_GREY@
        + ";
        }

        "@
}

/// Writes the rules for tree views.
fn write_tree_view_rules() -> (r: String)
    ensures
        r@ == tree_view_rules(),
{
    let mut sheet: String = "        /* TreeView, with no rounded corners and darker. */
        QTreeView {
            border-style: solid;
            border-width: 1px;
            border-color: ".to_owned();
    sheet.append(SLIGHTLY_DARKER_GREY);
    sheet.append(";
        }

        ");
    sheet
}

/// The stylesheet of the dark theme: the rules for buttons, checkboxes, table views, line
/// edits, combos and tree views, one behind the other. The pictures that it names are
/// looked for under `assets_path`.
pub open spec fn dark_theme_stylesheet(assets_path: Seq<char>) -> Seq<char> {
    button_rules()
        + checkbox_rules(assets_path)
        + table_view_rules(assets_path)
        + line_edit_rules()
        + combo_rules()
        + tree_view_rules()
}

/// The stylesheet of the dark theme.
pub fn create_dark_theme_stylesheet(assets_path: &str) -> (r: String)
    ensures
        r@ == dark_theme_stylesheet(assets_path@),
{
    let mut sheet: String = write_button_rules();
    sheet.append(write_checkbox_rules(assets_path).as_str());
    sheet.append(write_table_view_rules(assets_path).as_str());
    sheet.append(write_line_edit_rules().as_str());
    sheet.append(write_combo_rules().as_str());
    sheet.append(write_tree_view_rules().as_str());
    sheet
}

} // verus!
