//! What an item of a tree of files shows as its icon.

use vstd::prelude::*;

use crate::pack::file_type::{classify, ends_in, FileType};
use crate::text::{chars_of, has_suffix, lowercase_of, to_lowercase};

verus! {

/// What an icon is asked for.
#[derive(Debug)]
pub enum IconType {
    /// A pack: `true` where it can be edited, `false` where it is read-only.
    Pack(bool),
    /// A file, with its path inside the pack.
    File(String),
}

/// The icons that there are.
#[derive(Clone, Copy, Debug, PartialEq, Eq, Structural)]
pub enum IconKind {
    PackEditable,
    PackLocked,
    File,
    AnimPack,
    Audio,
    Db,
    Esf,
    ImageGeneric,
    ImagePng,
    ImageJpg,
    ImageTga,
    ImageGif,
    Loc,
    RigidModel,
    SoundBank,
    TextGeneric,
    TextMd,
    TextJson,
    TextHtml,
    TextTxt,
    TextXml,
    TextLua,
    TextJs,
    TextCss,
    UnitVariant,
    Video,
}

/// The icon of an image with the lower-case path `p`.
pub open spec fn image_icon(p: Seq<char>) -> IconKind {
    if has_suffix(p, ".jpg"@) || has_suffix(p, ".jpeg"@) {
        IconKind::ImageJpg
    } else if has_suffix(p, ".tga"@) {
        IconKind::ImageTga
    } else if has_suffix(p, ".png"@) {
        IconKind::ImagePng
    } else if has_suffix(p, ".gif"@) {
        IconKind::ImageGif
    } else {
        IconKind::ImageGeneric
    }
}

/// The icon of a text with the lower-case path `p`.
pub open spec fn text_icon(p: Seq<char>) -> IconKind {
    if has_suffix(p, ".html"@) {
        IconKind::TextHtml
    } else if has_suffix(p, ".xml"@) {
        IconKind::TextXml
    } else if has_suffix(p, ".lua"@) {
        IconKind::TextLua
    } else if has_suffix(p, ".txt"@) {
        IconKind::TextTxt
    } else if has_suffix(p, ".md"@) {
        IconKind::TextMd
    } else if has_suffix(p, ".json"@) {
        IconKind::TextJson
    } else if has_suffix(p, ".css"@) {
        IconKind::TextCss
    } else if has_suffix(p, ".js"@) {
        IconKind::TextJs
    } else {
        IconKind::TextGeneric
    }
}

/// The icon of the file with the lower-case path `p`: that of its kind, and for images and
/// texts one that tells their format.
pub open spec fn file_icon(p: Seq<char>) -> IconKind {
    match classify(p) {
        FileType::Pack => IconKind::PackEditable,
        FileType::Loc => IconKind::Loc,
        FileType::RigidModel => IconKind::RigidModel,
        FileType::AnimPack => IconKind::AnimPack,
        FileType::Video => IconKind::Video,
        FileType::Audio => IconKind::Audio,
        FileType::SoundBank => IconKind::SoundBank,
        FileType::Image => image_icon(p),
        FileType::Text => text_icon(p),
        FileType::UnitVariant => IconKind::UnitVariant,
        FileType::ESF => IconKind::Esf,
        FileType::DB => IconKind::Db,
        _ => IconKind::File,
    }
}

/// The icon that is asked for.
pub open spec fn spec_icon(icon_type: IconType) -> IconKind {
    match icon_type {
        IconType::Pack(editable) => if editable {
            IconKind::PackEditable
        } else {
            IconKind::PackLocked
        },
        IconType::File(path) => file_icon(lowercase_of(path@)),
    }
}

/// The icon of the file with the given path, which is taken as it stands.
pub fn icon_of_lowercase_path(path: &str) -> (r: IconKind)
    ensures
        r == file_icon(path@),
{
    let p = chars_of(path);
    match FileType::from_lowercase_path(path) {
        FileType::Pack => IconKind::PackEditable,
        FileType::Loc => IconKind::Loc,
        FileType::RigidModel => IconKind::RigidModel,
        FileType::AnimPack => IconKind::AnimPack,
        FileType::Video => IconKind::Video,
        FileType::Audio => IconKind::Audio,
        FileType::SoundBank => IconKind::SoundBank,
        FileType::Image => {
            if ends_in(&p, ".jpg") || ends_in(&p, ".jpeg") {
                IconKind::ImageJpg
            } else if ends_in(&p, ".tga") {
                IconKind::ImageTga
            } else if ends_in(&p, ".png") {
                IconKind::ImagePng
            } else if ends_in(&p, ".gif") {
                IconKind::ImageGif
            } else {
                IconKind::ImageGeneric
            }
        },
        FileType::Text => {
            if ends_in(&p, ".html") {
                IconKind::TextHtml
            } else if ends_in(&p, ".xml") {
                IconKind::TextXml
            } else if ends_in(&p, ".lua") {
                IconKind::TextLua
            } else if ends_in(&p, ".txt") {
                IconKind::TextTxt
            } else if ends_in(&p, ".md") {
                IconKind::TextMd
            } else if ends_in(&p, ".json") {
                IconKind::TextJson
            } else if ends_in(&p, ".css") {
                IconKind::TextCss
            } else if ends_in(&p, ".js") {
                IconKind::TextJs
            } else {
                IconKind::TextGeneric
            }
        },
        FileType::UnitVariant => IconKind::UnitVariant,
        FileType::ESF => IconKind::Esf,
        FileType::DB => IconKind::Db,
        _ => IconKind::File,
    }
}

/// The icon that is asked for.
pub fn icon(icon_type: &IconType) -> (r: IconKind)
    ensures
        r == spec_icon(*icon_type),
{
    match icon_type {
        IconType::Pack(editable) => if *editable {
            IconKind::PackEditable
        } else {
            IconKind::PackLocked
        },
        IconType::File(path) => {
            let lower = to_lowercase(path.as_str());
            icon_of_lowercase_path(lower.as_str())
        },
    }
}

} // verus!
