//! The matches of a search within a file of portrait settings.

use vstd::prelude::*;

use crate::search::{
    contains_text, regex_is_match, regex_matches, regex_valid, stands_at, unicase_contains,
    MatchingMode,
};
use crate::text::{chars_of, holds_at, string_from_chars};

verus! {

/// All the matches of a search within one file of portrait settings.
#[derive(Debug, Clone)]
pub struct PortraitSettingsMatches {
    /// The path of the file.
    pub path: String,
    /// The matches within the file.
    pub matches: Vec<PortraitSettingsMatch>,
}

/// One match within a file of portrait settings.
#[derive(Debug, Default, Clone, Eq, PartialEq)]
pub struct PortraitSettingsMatch {
    /// The position of the entry in the file.
    pub entry: usize,
    /// Whether the id of the entry matched.
    pub id: bool,
    /// Whether the skeleton node of the head camera matched.
    pub camera_settings_head: bool,
    /// Whether the skeleton node of the body camera matched.
    pub camera_settings_body: bool,
    /// Where a value of a variant matched: the position of the variant, and which of its
    /// values it was: file name, diffuse file, first, second or third mask.
    pub variant: Option<(usize, bool, bool, bool, bool, bool)>,
    /// The text that matched.
    pub data: String,
}

impl PortraitSettingsMatches {
    /// No matches yet, for the file with the given path.
    pub fn new(path: &str) -> (r: Self)
        ensures
            r.path@ == path@,
            r.matches@.len() == 0,
    {
        Self { path: string_from_chars(chars_of(path).as_slice()), matches: Vec::new() }
    }
}

impl PortraitSettingsMatch {
    /// A match with the given data.
    pub fn new(
        entry: usize,
        id: bool,
        camera_settings_head: bool,
        camera_settings_body: bool,
        variant: Option<(usize, bool, bool, bool, bool, bool)>,
        data: String,
    ) -> (r: Self)
        ensures
            r == (Self { entry, id, camera_settings_head, camera_settings_body, variant, data }),
    {
        Self { entry, id, camera_settings_head, camera_settings_body, variant, data }
    }
}

/// The settings of one camera of a portrait.
#[derive(Debug)]
pub struct CameraSetting {
    pub skeleton_node: String,
}

/// One variant of a portrait, with the files it is drawn from.
#[derive(Debug)]
pub struct Variant {
    pub filename: String,
    pub file_diffuse: String,
    pub file_mask_1: String,
    pub file_mask_2: String,
    pub file_mask_3: String,
}

/// The portraits of one art set.
#[derive(Debug)]
pub struct Entry {
    pub id: String,
    pub camera_settings_head: CameraSetting,
    pub camera_settings_body: Option<CameraSetting>,
    pub variants: Vec<Variant>,
}

/// A file of portrait settings, decoded.
#[derive(Debug)]
pub struct PortraitSettings {
    pub entries: Vec<Entry>,
}

/// What a `PortraitSettingsMatch` holds.
pub struct MatchView {
    pub entry: usize,
    pub id: bool,
    pub camera_settings_head: bool,
    pub camera_settings_body: bool,
    pub variant: Option<(usize, bool, bool, bool, bool, bool)>,
    pub data: Seq<char>,
}

impl View for PortraitSettingsMatch {
    type V = MatchView;

    open spec fn view(&self) -> MatchView {
        MatchView {
            entry: self.entry,
            id: self.id,
            camera_settings_head: self.camera_settings_head,
            camera_settings_body: self.camera_settings_body,
            variant: self.variant,
            data: self.data@,
        }
    }
}

/// What a list of matches holds.
pub open spec fn match_views(matches: Seq<PortraitSettingsMatch>) -> Seq<MatchView> {
    Seq::new(matches.len(), |i: int| matches[i]@)
}

/// True when `text` holds what is searched for: a match of the regular expression, or the
/// pattern itself, letter for letter.
pub open spec fn text_found(mode: MatchingMode, pattern: Seq<char>, text: Seq<char>) -> bool {
    match mode {
        MatchingMode::Regex { pattern: expression, case_insensitive } => regex_valid(
            expression@,
            case_insensitive,
        ) && regex_matches(expression@, case_insensitive, text),
        MatchingMode::Pattern => contains_text(text, pattern),
    }
}

/// The matches with one more at their end, where `text` holds what is searched for.
pub open spec fn with_match(
    found: Seq<MatchView>,
    mode: MatchingMode,
    pattern: Seq<char>,
    text: Seq<char>,
    m: MatchView,
) -> Seq<MatchView> {
    if text_found(mode, pattern, text) {
        found.push(MatchView { data: text, ..m })
    } else {
        found
    }
}

/// A match of no value yet, in the entry at `entry`.
pub open spec fn blank_match(entry: usize) -> MatchView {
    MatchView {
        entry,
        id: false,
        camera_settings_head: false,
        camera_settings_body: false,
        variant: None,
        data: Seq::empty(),
    }
}

/// The matches within one variant, behind the matches `found`: file name, diffuse file,
/// then the three masks.
pub open spec fn variant_matches(
    variant: Variant,
    entry: usize,
    at: usize,
    mode: MatchingMode,
    pattern: Seq<char>,
    found: Seq<MatchView>,
) -> Seq<MatchView> {
    let blank = blank_match(entry);
    let f1 = with_match(
        found,
        mode,
        pattern,
        variant.filename@,
        MatchView { variant: Some((at, true, false, false, false, false)), ..blank },
    );
    let f2 = with_match(
        f1,
        mode,
        pattern,
        variant.file_diffuse@,
        MatchView { variant: Some((at, false, true, false, false, false)), ..blank },
    );
    let f3 = with_match(
        f2,
        mode,
        pattern,
        variant.file_mask_1@,
        MatchView { variant: Some((at, false, false, true, false, false)), ..blank },
    );
    let f4 = with_match(
        f3,
        mode,
        pattern,
        variant.file_mask_2@,
        MatchView { variant: Some((at, false, false, false, true, false)), ..blank },
    );
    with_match(
        f4,
        mode,
        pattern,
        variant.file_mask_3@,
        MatchView { variant: Some((at, false, false, false, false, true)), ..blank },
    )
}

/// The matches within the variants from `at` on, behind the matches `found`.
pub open spec fn variants_matches(
    variants: Seq<Variant>,
    entry: usize,
    at: int,
    mode: MatchingMode,
    pattern: Seq<char>,
    found: Seq<MatchView>,
) -> Seq<MatchView>
    decreases variants.len() - at,
{
    if at < 0 || at >= variants.len() {
        found
    } else {
        variants_matches(
            variants,
            entry,
            at + 1,
            mode,
            pattern,
            variant_matches(variants[at], entry, at as usize, mode, pattern, found),
        )
    }
}

/// The matches within one entry, behind the matches `found`: the id, the head camera, the
/// body camera where there is one, then the variants.
pub open spec fn entry_matches(
    entry: Entry,
    at: usize,
    mode: MatchingMode,
    pattern: Seq<char>,
    found: Seq<MatchView>,
) -> Seq<MatchView> {
    let blank = blank_match(at);
    let f1 = with_match(found, mode, pattern, entry.id@, MatchView { id: true, ..blank });
    let f2 = with_match(
        f1,
        mode,
        pattern,
        entry.camera_settings_head.skeleton_node@,
        MatchView { camera_settings_head: true, ..blank },
    );
    let f3 = match entry.camera_settings_body {
        Some(body) => with_match(
            f2,
            mode,
            pattern,
            body.skeleton_node@,
            MatchView { camera_settings_body: true, ..blank },
        ),
        None => f2,
    };
    variants_matches(entry.variants@, at, 0, mode, pattern, f3)
}

/// The matches within the entries from `at` on, behind the matches `found`.
pub open spec fn entries_matches(
    entries: Seq<Entry>,
    at: int,
    mode: MatchingMode,
    pattern: Seq<char>,
    found: Seq<MatchView>,
) -> Seq<MatchView>
    decreases entries.len() - at,
{
    if at < 0 || at >= entries.len() {
        found
    } else {
        entries_matches(
            entries,
            at + 1,
            mode,
            pattern,
            entry_matches(entries[at], at as usize, mode, pattern, found),
        )
    }
}

/// Tells whether `pattern` stands somewhere in `text`.
pub fn contains(text: &str, pattern: &str) -> (r: bool)
    ensures
        r == contains_text(text@, pattern@),
{
    let t = chars_of(text);
    let p = chars_of(pattern);
    if p.len() > t.len() {
        assert(forall|at: int| !stands_at(t@, p@, at));
        return false;
    }
    assert(t@ == text@ && p@ == pattern@);
    let last: usize = t.len() - p.len();
    let mut at: usize = 0;
    loop
        invariant
            at <= last,
            last + p@.len() == t@.len(),
            t@ == text@,
            p@ == pattern@,
            forall|k: int| 0 <= k < at ==> !stands_at(t@, p@, k),
        decreases last - at,
    {
        if holds_at(&t, at, &p) {
            assert(stands_at(t@, p@, at as int));
            return true;
        }
        if at == last {
            assert(forall|k: int| !stands_at(t@, p@, k));
            return false;
        }
        at = at + 1;
    }
}

/// Tells whether `text` holds what is searched for.
pub fn text_matches(text: &str, pattern: &str, case_sensitive: bool, mode: &MatchingMode) -> (r:
    bool)
    ensures
        r == text_found(*mode, pattern@, text@),
{
    match mode {
        MatchingMode::Regex { pattern: expression, case_insensitive } => {
            match regex_is_match(expression.as_str(), *case_insensitive, text) {
                Some(found) => found,
                None => false,
            }
        },
        MatchingMode::Pattern => {
            if case_sensitive {
                contains(text, pattern)
            } else {
                unicase_contains(text, pattern)
            }
        },
    }
}

/// The matches with one more at their end, where `hit` holds.
pub open spec fn recorded(found: Seq<MatchView>, hit: bool, text: Seq<char>, m: MatchView) -> Seq<
    MatchView,
> {
    if hit {
        found.push(MatchView { data: text, ..m })
    } else {
        found
    }
}

/// Adds a match with the given data and the text that matched, where `hit` tells that the
/// text holds what is searched for.
pub fn record_match(
    found: &mut Vec<PortraitSettingsMatch>,
    hit: bool,
    text: &str,
    entry: usize,
    id: bool,
    camera_settings_head: bool,
    camera_settings_body: bool,
    variant: Option<(usize, bool, bool, bool, bool, bool)>,
)
    ensures
        match_views(final(found)@) == recorded(
            match_views(old(found)@),
            hit,
            text@,
            MatchView {
                entry,
                id,
                camera_settings_head,
                camera_settings_body,
                variant,
                data: Seq::empty(),
            },
        ),
{
    if hit {
        let data = string_from_chars(chars_of(text).as_slice());
        found.push(
            PortraitSettingsMatch::new(
                entry,
                id,
                camera_settings_head,
                camera_settings_body,
                variant,
                data,
            ),
        );
        assert(match_views(found@) =~= match_views(old(found)@).push(
            MatchView {
                entry,
                id,
                camera_settings_head,
                camera_settings_body,
                variant,
                data: text@,
            },
        ));
    } else {
        assert(match_views(found@) =~= match_views(old(found)@));
    }
}

/// Adds a match where `text` holds what is searched for.
fn push_match(
    found: &mut Vec<PortraitSettingsMatch>,
    text: &str,
    pattern: &str,
    case_sensitive: bool,
    mode: &MatchingMode,
    entry: usize,
    id: bool,
    camera_settings_head: bool,
    camera_settings_body: bool,
    variant: Option<(usize, bool, bool, bool, bool, bool)>,
)
    ensures
        match_views(final(found)@) == with_match(
            match_views(old(found)@),
            *mode,
            pattern@,
            text@,
            MatchView {
                entry,
                id,
                camera_settings_head,
                camera_settings_body,
                variant,
                data: Seq::empty(),
            },
        ),
{
    let hit: bool = text_matches(text, pattern, case_sensitive, mode);
    record_match(
        found,
        hit,
        text,
        entry,
        id,
        camera_settings_head,
        camera_settings_body,
        variant,
    );
}

/// Adds the matches within one variant.
#[verifier::rlimit(40)]
fn search_variant(
    found: &mut Vec<PortraitSettingsMatch>,
    variant: &Variant,
    entry: usize,
    at: usize,
    pattern: &str,
    case_sensitive: bool,
    mode: &MatchingMode,
)
    ensures
        match_views(final(found)@) == variant_matches(
            *variant,
            entry,
            at,
            *mode,
            pattern@,
            match_views(old(found)@),
        ),
{
    push_match(
        found,
        variant.filename.as_str(),
        pattern,
        case_sensitive,
        mode,
        entry,
        false,
        false,
        false,
        Some((at, true, false, false, false, false)),
    );
    push_match(
        found,
        variant.file_diffuse.as_str(),
        pattern,
        case_sensitive,
        mode,
        entry,
        false,
        false,
        false,
        Some((at, false, true, false, false, false)),
    );
    push_match(
        found,
        variant.file_mask_1.as_str(),
        pattern,
        case_sensitive,
        mode,
        entry,
        false,
        false,
        false,
        Some((at, false, false, true, false, false)),
    );
    push_match(
        found,
        variant.file_mask_2.as_str(),
        pattern,
        case_sensitive,
        mode,
        entry,
        false,
        false,
        false,
        Some((at, false, false, false, true, false)),
    );
    push_match(
        found,
        variant.file_mask_3.as_str(),
        pattern,
        case_sensitive,
        mode,
        entry,
        false,
        false,
        false,
        Some((at, false, false, false, false, true)),
    );
}

/// Adds the matches within one entry.
#[verifier::rlimit(40)]
fn search_entry(
    found: &mut Vec<PortraitSettingsMatch>,
    entry: &Entry,
    at: usize,
    pattern: &str,
    case_sensitive: bool,
    mode: &MatchingMode,
)
    ensures
        match_views(final(found)@) == entry_matches(
            *entry,
            at,
            *mode,
            pattern@,
            match_views(old(found)@),
        ),
{
    push_match(
        found,
        entry.id.as_str(),
        pattern,
        case_sensitive,
        mode,
        at,
        true,
        false,
        false,
        None,
    );
    push_match(
        found,
        entry.camera_settings_head.skeleton_node.as_str(),
        pattern,
        case_sensitive,
        mode,
        at,
        false,
        true,
        false,
        None,
    );
    match &entry.camera_settings_body {
        Some(body) => {
            push_match(
                found,
                body.skeleton_node.as_str(),
                pattern,
                case_sensitive,
                mode,
                at,
                false,
                false,
                true,
                None,
            );
        },
        None => {},
    }
    let n: usize = entry.variants.len();
    let mut v: usize = 0;
    let ghost start = match_views(found@);
    while v < n
        invariant
            v <= n == entry.variants@.len(),
            variants_matches(entry.variants@, at, 0, *mode, pattern@, start) == variants_matches(
                entry.variants@,
                at,
                v as int,
                *mode,
                pattern@,
                match_views(found@),
            ),
        decreases n - v,
    {
        search_variant(found, &entry.variants[v], at, v, pattern, case_sensitive, mode);
        v = v + 1;
    }
}

impl PortraitSettings {
    /// Searches the file: every entry in turn, and within an entry its id, the skeleton
    /// nodes of its cameras and the files of its variants. A regular expression is matched
    /// as it was built; a plain pattern must stand in a text letter for letter, whether the
    /// search regards case or not.
    pub fn search(
        &self,
        file_path: &str,
        pattern: &str,
        case_sensitive: bool,
        matching_mode: &MatchingMode,
    ) -> (r: PortraitSettingsMatches)
        ensures
            r.path@ == file_path@,
            match_views(r.matches@) == entries_matches(
                self.entries@,
                0,
                *matching_mode,
                pattern@,
                Seq::empty(),
            ),
    {
        let mut matches = PortraitSettingsMatches::new(file_path);
        let n: usize = self.entries.len();
        let mut i: usize = 0;
        assert(match_views(matches.matches@) =~= Seq::<MatchView>::empty());
        while i < n
            invariant
                i <= n == self.entries@.len(),
                matches.path@ == file_path@,
                entries_matches(self.entries@, 0, *matching_mode, pattern@, Seq::empty())
                    == entries_matches(
                    self.entries@,
                    i as int,
                    *matching_mode,
                    pattern@,
                    match_views(matches.matches@),
                ),
            decreases n - i,
        {
            search_entry(
                &mut matches.matches,
                &self.entries[i],
                i,
                pattern,
                case_sensitive,
                matching_mode,
            );
            i = i + 1;
        }
        matches
    }
}

} // verus!
