use vstd::prelude::*;
use crate::decimal::{decimal_value, parse_decimal};

verus! {

/// An inclusive range of positions selected for cutting.
#[derive(Clone, Copy, Debug, PartialEq, Eq)]
pub struct CutRange {
    pub start: usize,
    pub end: usize,
}

/// A range list that could not be read.
#[derive(Debug, PartialEq, Eq)]
pub struct CutRangeError;

impl CutRangeError {
    /// The message shown for a range list that could not be read.
    pub fn message(&self) -> (r: String)
        ensures
            r@ == "Error parsing a range!"@,
    {
        String::from_str("Error parsing a range!")
    }
}

/// The pieces of `s` between occurrences of `sep`, as `str::split` gives
/// them: one more piece than there are separators, empty pieces kept.
pub open spec fn split_on(s: Seq<char>, sep: char) -> Seq<Seq<char>>
    decreases s.len(),
{
    if s.len() == 0 {
        seq![Seq::empty()]
    } else {
        let rest = split_on(s.drop_last(), sep);
        if s.last() == sep {
            rest.push(Seq::empty())
        } else {
            rest.update(rest.len() - 1, rest.last().push(s.last()))
        }
    }
}

proof fn lemma_split_nonempty(s: Seq<char>, sep: char)
    ensures
        split_on(s, sep).len() >= 1,
    decreases s.len(),
{
    if s.len() > 0 {
        lemma_split_nonempty(s.drop_last(), sep);
    }
}

/// A position as `usize` parsing reads it.
pub open spec fn position_value(s: Seq<char>) -> Option<int> {
    match decimal_value(s) {
        Some(v) => if v <= usize::MAX {
            Some(v)
        } else {
            None
        },
        None => None,
    }
}

/// The range a piece of a range list stands for: `N` is `N-N`; otherwise the
/// first two pieces around `-` are the bounds.
pub open spec fn range_of(piece: Seq<char>) -> Option<(int, int)> {
    let parts = split_on(piece, '-');
    if parts.len() == 1 {
        match position_value(parts[0]) {
            Some(v) => Some((v, v)),
            None => None,
        }
    } else {
        match (position_value(parts[0]), position_value(parts[1])) {
            (Some(a), Some(b)) => Some((a, b)),
            _ => None,
        }
    }
}

/// Splits `s` at each `sep`.
pub fn split_text(s: &str, sep: char) -> (r: Vec<String>)
    ensures
        r@.map_values(|p: String| p@) == split_on(s@, sep),
{
    let n = s.unicode_len();
    let mut pieces: Vec<String> = Vec::new();
    let mut start: usize = 0;
    let mut i: usize = 0;
    assert(s@.subrange(0, 0) =~= Seq::<char>::empty());
    assert(pieces@.map_values(|p: String| p@).push(s@.subrange(0, 0)) =~= seq![Seq::<char>::empty()]);
    while i < n
        invariant
            n == s@.len(),
            start <= i <= n,
            pieces@.map_values(|p: String| p@).push(s@.subrange(start as int, i as int)) =~= split_on(
                s@.subrange(0, i as int),
                sep,
            ),
        decreases n - i,
    {
        let c = s.get_char(i);
        assert(s@.subrange(0, i + 1).drop_last() =~= s@.subrange(0, i as int));
        assert(s@.subrange(0, i + 1).last() == c);
        if c == sep {
            let ghost prev = pieces@;
            pieces.push(String::from_str(s.substring_char(start, i)));
            assert(pieces@.map_values(|p: String| p@) =~= prev.map_values(|p: String| p@).push(
                s@.subrange(start as int, i as int),
            ));
            i = i + 1;
            start = i;
            assert(s@.subrange(start as int, i as int) =~= Seq::<char>::empty());
            assert(pieces@.map_values(|p: String| p@).push(s@.subrange(start as int, i as int))
                =~= split_on(s@.subrange(0, i as int), sep));
        } else {
            assert(s@.subrange(start as int, i + 1) =~= s@.subrange(start as int, i as int).push(c));
            i = i + 1;
            assert(pieces@.map_values(|p: String| p@).push(s@.subrange(start as int, i as int))
                =~= split_on(s@.subrange(0, i as int), sep));
        }
    }
    let ghost prev = pieces@;
    pieces.push(String::from_str(s.substring_char(start, n)));
    assert(s@.subrange(0, n as int) =~= s@);
    assert(pieces@.map_values(|p: String| p@) =~= prev.map_values(|p: String| p@).push(
        s@.subrange(start as int, n as int),
    ));
    pieces
}

fn parse_position(s: &str) -> (r: Option<usize>)
    ensures
        r is Some <==> position_value(s@) is Some,
        r matches Some(v) ==> position_value(s@) == Some(v as int),
{
    match parse_decimal(s, usize::MAX as u64) {
        Some(v) => Some(v as usize),
        None => None,
    }
}

fn parse_range(piece: &str) -> (r: Option<CutRange>)
    ensures
        r is Some <==> range_of(piece@) is Some,
        r matches Some(c) ==> range_of(piece@) == Some((c.start as int, c.end as int)),
{
    let parts = split_text(piece, '-');
    proof {
        lemma_split_nonempty(piece@, '-');
    }
    assert(parts@.map_values(|p: String| p@)[0] == parts@[0]@);
    if parts.len() == 1 {
        match parse_position(parts[0].as_str()) {
            Some(v) => Some(CutRange { start: v, end: v }),
            None => None,
        }
    } else {
        assert(parts@.map_values(|p: String| p@)[1] == parts@[1]@);
        let start = parse_position(parts[0].as_str());
        match start {
            Some(a) => match parse_position(parts[1].as_str()) {
                Some(b) => Some(CutRange { start: a, end: b }),
                None => None,
            },
            None => None,
        }
    }
}

/// The ranges of a comma-separated list.
pub open spec fn ranges_of(s: Seq<char>) -> Seq<Seq<char>> {
    split_on(s, ',')
}

/// Reads a comma-separated list of ranges (`N` or `N-M`); the list is refused
/// when any piece is not a range.
pub fn parse_cutranges(string: &str) -> (r: Result<Vec<CutRange>, CutRangeError>)
    ensures
        r is Ok <==> forall|i: int| 0 <= i < ranges_of(string@).len() ==> (#[trigger] range_of(
            ranges_of(string@)[i],
        )) is Some,
        r matches Ok(v) ==> v@.len() == ranges_of(string@).len() && forall|i: int|
            0 <= i < v@.len() ==> range_of(ranges_of(string@)[i]) == Some(
                (#[trigger] v@[i].start as int, v@[i].end as int),
            ),
{
    let pieces = split_text(string, ',');
    let ghost model = ranges_of(string@);
    let mut parsed: Vec<CutRange> = Vec::new();
    let mut i: usize = 0;
    while i < pieces.len()
        invariant
            pieces@.map_values(|p: String| p@) == model,
            model == ranges_of(string@),
            0 <= i <= pieces@.len(),
            parsed@.len() == i,
            forall|j: int| 0 <= j < i ==> range_of(#[trigger] model[j]) == Some(
                (parsed@[j].start as int, parsed@[j].end as int),
            ),
        decreases pieces@.len() - i,
    {
        assert(model[i as int] == pieces@[i as int]@);
        match parse_range(pieces[i].as_str()) {
            Some(c) => {
                parsed.push(c);
            },
            None => {
                return Err(CutRangeError);
            },
        }
        i = i + 1;
    }
    Ok(parsed)
}

} // verus!
