//! Searching the files of a pack for a text.

use vstd::prelude::*;

use crate::pack::file_type::FileType;
use crate::search::portrait_settings::PortraitSettingsMatches;
use crate::text::str_eq;

pub mod portrait_settings;

verus! {

/// Whether the regular expression `pattern` can be built, with or without regard to case.
pub uninterp spec fn regex_valid(pattern: Seq<char>, case_insensitive: bool) -> bool;

/// Whether the regular expression `pattern`, once built, matches somewhere in `text`.
pub uninterp spec fn regex_matches(
    pattern: Seq<char>,
    case_insensitive: bool,
    text: Seq<char>,
) -> bool;

/// `RegexBuilder::new(pattern).case_insensitive(..).build()` and `Regex::is_match`: `None`
/// where the expression cannot be built, else whether it matches somewhere in `text`.
#[verifier::external_body]
pub(crate) fn regex_is_match(pattern: &str, case_insensitive: bool, text: &str) -> (r: Option<bool>)
    ensures
        r is Some <==> regex_valid(pattern@, case_insensitive),
        r matches Some(found) ==> found == regex_matches(pattern@, case_insensitive, text@),
{
    match regex::RegexBuilder::new(pattern).case_insensitive(case_insensitive).build() {
        Ok(regex) => Some(regex.is_match(text)),
        Err(_) => None,
    }
}

/// `UniCase::new(text).contains(pattern)`: the wrapper hands the call on to the text that
/// it wraps, so this tells whether `pattern` stands somewhere in `text`, letter for letter.
#[verifier::external_body]
pub(crate) fn unicase_contains(text: &str, pattern: &str) -> (r: bool)
    ensures
        r == contains_text(text@, pattern@),
{
    unicase::UniCase::new(text).contains(pattern)
}

/// True when `pattern` stands in `text` at position `at`.
pub open spec fn stands_at(text: Seq<char>, pattern: Seq<char>, at: int) -> bool {
    0 <= at && at + pattern.len() <= text.len() && text.subrange(at, at + pattern.len())
        == pattern
}

/// True when `pattern` stands somewhere in `text`.
pub open spec fn contains_text(text: Seq<char>, pattern: Seq<char>) -> bool {
    exists|at: int| stands_at(text, pattern, at)
}

/// How a text is matched against what is searched for.
#[derive(Debug)]
pub enum MatchingMode {
    /// As a regular expression, with or without regard to case.
    Regex { pattern: String, case_insensitive: bool },
    /// As a plain text.
    Pattern,
}

/// Where a search looks.
#[derive(Clone, Copy, Debug, PartialEq, Eq, Structural)]
pub enum SearchSource {
    Pack,
    ParentFiles,
    GameFiles,
    AssKitFiles,
}

/// The kinds of file that a search looks into.
#[derive(Clone, Copy, Debug, PartialEq, Eq, Structural)]
pub struct SearchOn {
    pub anim: bool,
    pub anim_fragment: bool,
    pub anim_pack: bool,
    pub anims_table: bool,
    pub audio: bool,
    pub bmd: bool,
    pub db: bool,
    pub esf: bool,
    pub group_formations: bool,
    pub image: bool,
    pub loc: bool,
    pub matched_combat: bool,
    pub pack: bool,
    pub portrait_settings: bool,
    pub rigid_model: bool,
    pub sound_bank: bool,
    pub text: bool,
    pub uic: bool,
    pub unit_variant: bool,
    pub unknown: bool,
    pub video: bool,
    pub schema: bool,
}

/// The matches of a search, file by file.
#[derive(Debug)]
pub struct Matches {
    pub portrait_settings: Vec<PortraitSettingsMatches>,
}

/// The kinds of file, in the order in which a search names them.
pub open spec fn all_types() -> Seq<FileType> {
    seq![
        FileType::Anim,
        FileType::AnimFragment,
        FileType::AnimPack,
        FileType::AnimsTable,
        FileType::Audio,
        FileType::BMD,
        FileType::DB,
        FileType::ESF,
        FileType::GroupFormations,
        FileType::Image,
        FileType::Loc,
        FileType::MatchedCombat,
        FileType::Pack,
        FileType::PortraitSettings,
        FileType::RigidModel,
        FileType::SoundBank,
        FileType::Text,
        FileType::UIC,
        FileType::UnitVariant,
        FileType::Unknown,
        FileType::Video,
    ]
}

/// The kinds among `types` from position `i` on that are looked into, behind the kinds
/// `found`.
pub open spec fn wanted_types(
    on: SearchOn,
    types: Seq<FileType>,
    i: int,
    found: Seq<FileType>,
) -> Seq<
    FileType,
>
    decreases types.len() - i,
{
    if i < 0 || i >= types.len() {
        found
    } else if on.spec_wants(types[i]) {
        wanted_types(on, types, i + 1, found.push(types[i]))
    } else {
        wanted_types(on, types, i + 1, found)
    }
}

/// The kinds of file that are looked into, in a fixed order.
pub open spec fn searched_types(on: SearchOn) -> Seq<FileType> {
    wanted_types(on, all_types(), 0, Seq::empty())
}

/// The matches of the files whose path is not among `paths`, from position `i` on, behind
/// the matches `kept`.
pub open spec fn retained(
    matches: Seq<PortraitSettingsMatches>,
    paths: Seq<Seq<char>>,
    i: int,
    kept: Seq<PortraitSettingsMatches>,
) -> Seq<PortraitSettingsMatches>
    decreases matches.len() - i,
{
    if i < 0 || i >= matches.len() {
        kept
    } else if paths.contains(matches[i].path@) {
        retained(matches, paths, i + 1, kept)
    } else {
        retained(matches, paths, i + 1, kept.push(matches[i]))
    }
}

/// Tells whether a text is in a list of texts.
pub fn contains_path(paths: &Vec<String>, path: &str) -> (r: bool)
    ensures
        r == crate::pack::texts(paths@).contains(path@),
{
    let mut i: usize = 0;
    while i < paths.len()
        invariant
            i <= paths@.len(),
            forall|j: int| 0 <= j < i ==> crate::pack::texts(paths@)[j] != path@,
        decreases paths@.len() - i,
    {
        if str_eq(paths[i].as_str(), path) {
            assert(crate::pack::texts(paths@)[i as int] == path@);
            return true;
        }
        i = i + 1;
    }
    false
}

impl SearchOn {
    /// True when files of the given kind are looked into.
    pub open spec fn spec_wants(&self, t: FileType) -> bool {
        match t {
            FileType::Anim => self.anim,
            FileType::AnimFragment => self.anim_fragment,
            FileType::AnimPack => self.anim_pack,
            FileType::AnimsTable => self.anims_table,
            FileType::Audio => self.audio,
            FileType::BMD => self.bmd,
            FileType::DB => self.db,
            FileType::ESF => self.esf,
            FileType::GroupFormations => self.group_formations,
            FileType::Image => self.image,
            FileType::Loc => self.loc,
            FileType::MatchedCombat => self.matched_combat,
            FileType::Pack => self.pack,
            FileType::PortraitSettings => self.portrait_settings,
            FileType::RigidModel => self.rigid_model,
            FileType::SoundBank => self.sound_bank,
            FileType::Text => self.text,
            FileType::UIC => self.uic,
            FileType::UnitVariant => self.unit_variant,
            FileType::Unknown => self.unknown,
            FileType::Video => self.video,
        }
    }

    /// Tells whether files of the given kind are looked into.
    pub fn wants(&self, t: FileType) -> (r: bool)
        ensures
            r == self.spec_wants(t),
    {
        match t {
            FileType::Anim => self.anim,
            FileType::AnimFragment => self.anim_fragment,
            FileType::AnimPack => self.anim_pack,
            FileType::AnimsTable => self.anims_table,
            FileType::Audio => self.audio,
            FileType::BMD => self.bmd,
            FileType::DB => self.db,
            FileType::ESF => self.esf,
            FileType::GroupFormations => self.group_formations,
            FileType::Image => self.image,
            FileType::Loc => self.loc,
            FileType::MatchedCombat => self.matched_combat,
            FileType::Pack => self.pack,
            FileType::PortraitSettings => self.portrait_settings,
            FileType::RigidModel => self.rigid_model,
            FileType::SoundBank => self.sound_bank,
            FileType::Text => self.text,
            FileType::UIC => self.uic,
            FileType::UnitVariant => self.unit_variant,
            FileType::Unknown => self.unknown,
            FileType::Video => self.video,
        }
    }

    /// The kinds of file that the search looks into.
    pub fn types_to_search(&self) -> (r: Vec<FileType>)
        ensures
            r@ == searched_types(*self),
    {
        let all: [FileType; 21] = [
            FileType::Anim,
            FileType::AnimFragment,
            FileType::AnimPack,
            FileType::AnimsTable,
            FileType::Audio,
            FileType::BMD,
            FileType::DB,
            FileType::ESF,
            FileType::GroupFormations,
            FileType::Image,
            FileType::Loc,
            FileType::MatchedCombat,
            FileType::Pack,
            FileType::PortraitSettings,
            FileType::RigidModel,
            FileType::SoundBank,
            FileType::Text,
            FileType::UIC,
            FileType::UnitVariant,
            FileType::Unknown,
            FileType::Video,
        ];
        assert(all@ =~= all_types());
        let mut types: Vec<FileType> = Vec::new();
        let mut i: usize = 0;
        while i < 21
            invariant
                i <= 21,
                all@ == all_types(),
                all@.len() == 21,
                searched_types(*self) == wanted_types(*self, all@, i as int, types@),
            decreases 21 - i,
        {
            if self.wants(all[i]) {
                types.push(all[i]);
            }
            i = i + 1;
        }
        types
    }
}

impl Matches {
    /// Drops the matches of the files whose path is among `paths`.
    pub fn retain_paths(&mut self, paths: &Vec<String>)
        ensures
            final(self).portrait_settings@ == retained(
                old(self).portrait_settings@,
                crate::pack::texts(paths@),
                0,
                Seq::empty(),
            ),
    {
        let ghost all = self.portrait_settings@;
        let ghost wanted = crate::pack::texts(paths@);
        let mut reversed: Vec<PortraitSettingsMatches> = Vec::new();
        while self.portrait_settings.len() > 0
            invariant
                self.portrait_settings@.len() + reversed@.len() == all.len(),
                forall|k: int|
                    0 <= k < self.portrait_settings@.len() ==> self.portrait_settings@[k]
                        == all[k],
                forall|k: int| 0 <= k < reversed@.len() ==> reversed@[k] == all[all.len() - 1 - k],
            decreases self.portrait_settings@.len(),
        {
            match self.portrait_settings.pop() {
                Some(m) => {
                    reversed.push(m);
                },
                None => {},
            }
        }
        assert(self.portrait_settings@ =~= Seq::<PortraitSettingsMatches>::empty());
        while reversed.len() > 0
            invariant
                reversed@.len() <= all.len(),
                wanted == crate::pack::texts(paths@),
                forall|k: int| 0 <= k < reversed@.len() ==> reversed@[k] == all[all.len() - 1 - k],
                retained(all, wanted, 0, Seq::empty()) == retained(
                    all,
                    wanted,
                    all.len() - reversed@.len(),
                    self.portrait_settings@,
                ),
            decreases reversed@.len(),
        {
            match reversed.pop() {
                Some(m) => {
                    if !contains_path(paths, m.path.as_str()) {
                        self.portrait_settings.push(m);
                    }
                },
                None => {},
            }
        }
    }
}

} // verus!
