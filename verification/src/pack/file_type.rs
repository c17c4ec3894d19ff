//! The kind of a file, guessed from its path.

use vstd::prelude::*;

use crate::text::{chars_of, ends_with, has_prefix, has_suffix, lowercase_of, starts_with, to_lowercase};

verus! {

/// The kinds of file that a pack can hold.
#[derive(Clone, Copy, Debug, PartialEq, Eq, Structural)]
pub enum FileType {
    Anim,
    AnimFragment,
    AnimPack,
    AnimsTable,
    Audio,
    BMD,
    DB,
    ESF,
    GroupFormations,
    Image,
    Loc,
    MatchedCombat,
    Pack,
    PortraitSettings,
    RigidModel,
    SoundBank,
    Text,
    UIC,
    UnitVariant,
    Unknown,
    Video,
}

/// The position of the first `c` in `s` at or behind `from`, or the length of `s`.
pub open spec fn first_index_of(s: Seq<char>, c: char, from: int) -> int
    decreases s.len() - from,
{
    if from < 0 || from >= s.len() {
        s.len() as int
    } else if s[from] == c {
        from
    } else {
        first_index_of(s, c, from + 1)
    }
}

/// True for the path of a table of the database: `db`, the table's folder and the file's
/// name, each of the last two with a character at least.
pub open spec fn is_db_path(p: Seq<char>) -> bool {
    let slash = first_index_of(p, '/', 3);
    &&& has_prefix(p, "db/"@)
    &&& 3 < slash
    &&& slash + 1 < p.len()
    &&& first_index_of(p, '/', slash + 1) == p.len()
}

/// True when the path ends like a text file.
pub open spec fn is_text_path(p: Seq<char>) -> bool {
    ||| has_suffix(p, ".txt"@)
    ||| has_suffix(p, ".lua"@)
    ||| has_suffix(p, ".xml"@)
    ||| has_suffix(p, ".json"@)
    ||| has_suffix(p, ".html"@)
    ||| has_suffix(p, ".css"@)
    ||| has_suffix(p, ".js"@)
    ||| has_suffix(p, ".md"@)
    ||| has_suffix(p, ".csv"@)
    ||| has_suffix(p, ".tsv"@)
    ||| has_suffix(p, ".inl"@)
}

/// True when the path ends like an image.
pub open spec fn is_image_path(p: Seq<char>) -> bool {
    ||| has_suffix(p, ".jpg"@)
    ||| has_suffix(p, ".jpeg"@)
    ||| has_suffix(p, ".tga"@)
    ||| has_suffix(p, ".dds"@)
    ||| has_suffix(p, ".png"@)
    ||| has_suffix(p, ".gif"@)
}

/// The kind of the file with the lower-case path `p`. The first rule that fits decides.
pub open spec fn classify(p: Seq<char>) -> FileType {
    if has_suffix(p, ".pack"@) {
        FileType::Pack
    } else if has_suffix(p, ".loc"@) {
        FileType::Loc
    } else if has_suffix(p, ".rigid_model_v2"@) {
        FileType::RigidModel
    } else if has_suffix(p, ".animpack"@) {
        FileType::AnimPack
    } else if has_suffix(p, ".ca_vp8"@) {
        FileType::Video
    } else if has_suffix(p, ".mp3"@) || has_suffix(p, ".wav"@) {
        FileType::Audio
    } else if has_suffix(p, ".bnk"@) {
        FileType::SoundBank
    } else if has_suffix(p, ".bmd"@) {
        FileType::BMD
    } else if is_image_path(p) {
        FileType::Image
    } else if is_text_path(p) {
        FileType::Text
    } else if has_suffix(p, ".unit_variant"@) {
        FileType::UnitVariant
    } else if has_suffix(p, ".esf"@) || has_suffix(p, ".save"@) {
        FileType::ESF
    } else if is_db_path(p) {
        FileType::DB
    } else {
        FileType::Unknown
    }
}

/// True for the kinds that hold tables.
pub open spec fn is_table_type(t: FileType) -> bool {
    t == FileType::DB || t == FileType::Loc
}

/// Finds the first `c` at or behind `from`.
fn index_of(s: &Vec<char>, c: char, from: usize) -> (r: usize)
    ensures
        r == first_index_of(s@, c, from as int),
        r <= s@.len(),
        from <= s@.len() ==> from <= r,
{
    let n: usize = s.len();
    let mut i: usize = from;
    while i < n && s[i] != c
        invariant
            n == s@.len(),
            from <= i,
            i <= n || from > n,
            first_index_of(s@, c, from as int) == first_index_of(s@, c, i as int),
        decreases n - i,
    {
        i = i + 1;
    }
    if i >= n {
        n
    } else {
        i
    }
}

/// Tells whether a path ends with a literal.
pub fn ends_in(p: &Vec<char>, suffix: &str) -> (r: bool)
    ensures
        r == has_suffix(p@, suffix@),
{
    let suffix_chars = chars_of(suffix);
    ends_with(p, &suffix_chars)
}

impl FileType {
    /// The kind of the file with the given path, whatever the case of its letters.
    pub fn from_path(path: &str) -> (r: FileType)
        ensures
            r == classify(lowercase_of(path@)),
    {
        let lower = to_lowercase(path);
        FileType::from_lowercase_path(lower.as_str())
    }

    /// The kind of the file with the given path, which is taken as it stands.
    pub fn from_lowercase_path(path: &str) -> (r: FileType)
        ensures
            r == classify(path@),
    {
        let p = chars_of(path);
        if ends_in(&p, ".pack") {
            FileType::Pack
        } else if ends_in(&p, ".loc") {
            FileType::Loc
        } else if ends_in(&p, ".rigid_model_v2") {
            FileType::RigidModel
        } else if ends_in(&p, ".animpack") {
            FileType::AnimPack
        } else if ends_in(&p, ".ca_vp8") {
            FileType::Video
        } else if ends_in(&p, ".mp3") || ends_in(&p, ".wav") {
            FileType::Audio
        } else if ends_in(&p, ".bnk") {
            FileType::SoundBank
        } else if ends_in(&p, ".bmd") {
            FileType::BMD
        } else if ends_in(&p, ".jpg") || ends_in(&p, ".jpeg") || ends_in(&p, ".tga") || ends_in(
            &p,
            ".dds",
        ) || ends_in(&p, ".png") || ends_in(&p, ".gif") {
            FileType::Image
        } else if ends_in(&p, ".txt") || ends_in(&p, ".lua") || ends_in(&p, ".xml") || ends_in(
            &p,
            ".json",
        ) || ends_in(&p, ".html") || ends_in(&p, ".css") || ends_in(&p, ".js") || ends_in(&p, ".md")
            || ends_in(&p, ".csv") || ends_in(&p, ".tsv") || ends_in(&p, ".inl") {
            FileType::Text
        } else if ends_in(&p, ".unit_variant") {
            FileType::UnitVariant
        } else if ends_in(&p, ".esf") || ends_in(&p, ".save") {
            FileType::ESF
        } else if FileType::is_db(&p) {
            FileType::DB
        } else {
            FileType::Unknown
        }
    }

    /// Tells whether a lower-case path is that of a table of the database.
    fn is_db(p: &Vec<char>) -> (r: bool)
        ensures
            r == is_db_path(p@),
    {
        let prefix = chars_of("db/");
        proof {
            reveal_strlit("db/");
        }
        if !starts_with(p, &prefix) {
            return false;
        }
        let slash: usize = index_of(p, '/', 3);
        if !(3 < slash && slash < p.len() - 1) {
            return false;
        }
        index_of(p, '/', slash + 1) == p.len()
    }

    /// Tells whether files of this kind hold tables.
    pub fn is_table(&self) -> (r: bool)
        ensures
            r == is_table_type(*self),
    {
        match self {
            FileType::DB => true,
            FileType::Loc => true,
            _ => false,
        }
    }
}

} // verus!
