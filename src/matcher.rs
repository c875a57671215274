use vstd::prelude::*;
use crate::pattern::{Pattern, regex_finds};

verus! {

/// The kind of a filesystem entry, decided once per visit.
#[derive(Clone, Copy, Debug, PartialEq, Eq, Structural)]
pub enum EntryKind {
    Directory,
    File,
    Symlink,
}

impl EntryKind {
    /// The kind named by a one-letter tag: `d`, `f` or `l`.
    pub fn from_tag(tag: &str) -> (r: Option<EntryKind>)
        ensures
            r == kind_of_tag(tag@),
    {
        if tag.unicode_len() != 1 {
            return None;
        }
        let c = tag.get_char(0);
        assert(tag@ =~= seq![c]);
        if c == 'd' {
            Some(EntryKind::Directory)
        } else if c == 'f' {
            Some(EntryKind::File)
        } else if c == 'l' {
            Some(EntryKind::Symlink)
        } else {
            None
        }
    }
}

pub open spec fn kind_of_tag(tag: Seq<char>) -> Option<EntryKind> {
    if tag == seq!['d'] {
        Some(EntryKind::Directory)
    } else if tag == seq!['f'] {
        Some(EntryKind::File)
    } else if tag == seq!['l'] {
        Some(EntryKind::Symlink)
    } else {
        None
    }
}

/// What a search is for: where to start and which entries to report.
pub struct Config {
    pub roots: Vec<String>,
    pub name_patterns: Vec<Pattern>,
    pub type_filters: Vec<EntryKind>,
}

impl Config {
    pub open spec fn patterns_view(&self) -> Seq<Seq<char>> {
        self.name_patterns@.map_values(|p: Pattern| p@)
    }

    pub open spec fn roots_view(&self) -> Seq<Seq<char>> {
        self.roots@.map_values(|s: String| s@)
    }
}

/// The name predicate: no patterns, or a readable name in which one of them occurs.
pub open spec fn name_accepted(patterns: Seq<Seq<char>>, name: Option<Seq<char>>) -> bool {
    patterns.len() == 0 || match name {
        Some(n) => exists|i: int| 0 <= i < patterns.len() && regex_finds(#[trigger] patterns[i], n),
        None => false,
    }
}

/// The kind predicate: no kind filters, or the kind is among them.
pub open spec fn kind_accepted(types: Seq<EntryKind>, kind: EntryKind) -> bool {
    types.len() == 0 || types.contains(kind)
}

/// Whether an entry with this name and kind is to be reported.
pub open spec fn entry_selected(
    patterns: Seq<Seq<char>>,
    types: Seq<EntryKind>,
    name: Option<Seq<char>>,
    kind: EntryKind,
) -> bool {
    name_accepted(patterns, name) && kind_accepted(types, kind)
}

pub open spec fn opt_view(name: Option<String>) -> Option<Seq<char>> {
    match name {
        Some(s) => Some(s@),
        None => None,
    }
}

/// Whether `kind` passes the kind filters.
pub fn kind_matches(kind: EntryKind, type_filters: &Vec<EntryKind>) -> (r: bool)
    ensures
        r == kind_accepted(type_filters@, kind),
{
    if type_filters.len() == 0 {
        return true;
    }
    let mut i: usize = 0;
    while i < type_filters.len()
        invariant
            0 <= i <= type_filters@.len(),
            forall|j: int| 0 <= j < i ==> type_filters@[j] != kind,
        decreases type_filters@.len() - i,
    {
        if type_filters[i] == kind {
            assert(type_filters@[i as int] == kind);
            return true;
        }
        i = i + 1;
    }
    false
}

/// The selection decided from the outcome of each pattern on the name:
/// `hits[i]` tells whether pattern `i` was found (false for a name that is
/// not readable text).
pub fn select_by_hits(hits: &Vec<bool>, kind: EntryKind, type_filters: &Vec<EntryKind>) -> (r: bool)
    ensures
        r == ((hits@.len() == 0 || hits@.contains(true)) && kind_accepted(type_filters@, kind)),
{
    let mut found = hits.len() == 0;
    let mut i: usize = 0;
    while i < hits.len()
        invariant
            0 <= i <= hits@.len(),
            found == (hits@.len() == 0 || exists|j: int| 0 <= j < i && hits@[j]),
        decreases hits@.len() - i,
    {
        if hits[i] {
            found = true;
        }
        i = i + 1;
    }
    found && kind_matches(kind, type_filters)
}

/// Whether an entry is reported: every pattern is tried on the basename, and
/// the kind is tested against the kind filters.
pub fn entry_matches(name: &Option<String>, kind: EntryKind, config: &Config) -> (r: bool)
    ensures
        r == entry_selected(config.patterns_view(), config.type_filters@, opt_view(*name), kind),
{
    let mut hits: Vec<bool> = Vec::new();
    let mut i: usize = 0;
    while i < config.name_patterns.len()
        invariant
            0 <= i <= config.name_patterns@.len(),
            hits@.len() == i,
            forall|j: int| 0 <= j < i ==> #[trigger] hits@[j] == match opt_view(*name) {
                Some(n) => regex_finds(config.name_patterns@[j]@, n),
                None => false,
            },
        decreases config.name_patterns@.len() - i,
    {
        let hit = match name {
            Some(n) => config.name_patterns[i].is_found_in(n.as_str()),
            None => false,
        };
        hits.push(hit);
        i = i + 1;
    }
    let r = select_by_hits(&hits, kind, &config.type_filters);
    proof {
        let pats = config.patterns_view();
        assert(pats.len() == hits@.len());
        if hits@.contains(true) {
            let j = choose|j: int| 0 <= j < hits@.len() && hits@[j] == true;
            assert(regex_finds(pats[j], opt_view(*name)->Some_0));
        }
        if hits@.len() != 0 && name_accepted(pats, opt_view(*name)) {
            let n = opt_view(*name)->Some_0;
            let j = choose|j: int| 0 <= j < pats.len() && regex_finds(#[trigger] pats[j], n);
            assert(hits@[j]);
        }
    }
    r
}

} // verus!
