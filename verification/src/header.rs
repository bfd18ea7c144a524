//! The signature-header parser: a comma-separated list of `key=value`
//! pairs, each of which must split on `=` into exactly two tokens, is turned
//! into a key-value mapping.

use vstd::prelude::*;

use crate::text::{
    find_char_from, is_space_char, lemma_split_on_first, lemma_split_on_nonempty, spec_trim,
    split_on, str_eq, trim_str,
};

verus! {

/// Failure of the header parser.
#[derive(Clone, Copy, Debug, PartialEq, Eq, Structural)]
pub enum ParseError {
    /// A comma-separated segment did not split into exactly one key and one
    /// value.
    MalformedPair,
}

/// A segment is well formed when it splits on `=` into exactly two tokens.
pub open spec fn segment_wellformed(seg: Seq<char>) -> bool {
    split_on(seg, '=').len() == 2
}

/// Key of a well-formed segment: the trimmed text before the `=`.
pub open spec fn segment_key(seg: Seq<char>) -> Seq<char> {
    spec_trim(split_on(seg, '=')[0])
}

/// Value of a well-formed segment: the trimmed text after the `=`.
pub open spec fn segment_value(seg: Seq<char>) -> Seq<char> {
    spec_trim(split_on(seg, '=')[1])
}

/// The mapping described by a sequence of well-formed segments; a later
/// segment with a repeated key overwrites the earlier one.
pub open spec fn map_of_segments(segs: Seq<Seq<char>>) -> Map<Seq<char>, Seq<char>>
    decreases segs.len(),
{
    if segs.len() == 0 {
        Map::empty()
    } else {
        map_of_segments(segs.drop_last()).insert(
            segment_key(segs.last()),
            segment_value(segs.last()),
        )
    }
}

/// What parsing a signature header yields: the comma-separated segments of
/// the trimmed header as a key-value mapping, or `MalformedPair` when some
/// segment does not split on `=` into exactly two tokens.
pub open spec fn spec_parse_header(h: Seq<char>) -> Result<Map<Seq<char>, Seq<char>>, ParseError> {
    let segs = split_on(spec_trim(h), ',');
    if forall|i: int| 0 <= i < segs.len() ==> segment_wellformed(#[trigger] segs[i]) {
        Ok(map_of_segments(segs))
    } else {
        Err(ParseError::MalformedPair)
    }
}

/// The mapping an association list denotes; a later pair with a repeated
/// key overwrites the earlier one.
pub open spec fn assoc_map(ps: Seq<(Seq<char>, Seq<char>)>) -> Map<Seq<char>, Seq<char>>
    decreases ps.len(),
{
    if ps.len() == 0 {
        Map::empty()
    } else {
        assoc_map(ps.drop_last()).insert(ps.last().0, ps.last().1)
    }
}

/// The key-value pairs of a vector of strings, as character sequences.
pub open spec fn pairs_view(ps: Seq<(String, String)>) -> Seq<(Seq<char>, Seq<char>)> {
    Seq::new(ps.len(), |i: int| (ps[i].0@, ps[i].1@))
}

proof fn lemma_assoc_map_last_match(ps: Seq<(Seq<char>, Seq<char>)>, k: Seq<char>, i: int)
    requires
        0 <= i < ps.len(),
        ps[i].0 == k,
        forall|j: int| i < j < ps.len() ==> (#[trigger] ps[j]).0 != k,
    ensures
        assoc_map(ps).contains_key(k),
        assoc_map(ps)[k] == ps[i].1,
    decreases ps.len(),
{
    if i < ps.len() - 1 {
        lemma_assoc_map_last_match(ps.drop_last(), k, i);
    }
}

proof fn lemma_assoc_map_absent(ps: Seq<(Seq<char>, Seq<char>)>, k: Seq<char>)
    requires
        forall|j: int| 0 <= j < ps.len() ==> (#[trigger] ps[j]).0 != k,
    ensures
        !assoc_map(ps).contains_key(k),
    decreases ps.len(),
{
    if ps.len() > 0 {
        lemma_assoc_map_absent(ps.drop_last(), k);
    }
}

/// A parsed signature header: its key-value pairs, in parse order.
pub struct SignatureHeader {
    pairs: Vec<(String, String)>,
}

impl View for SignatureHeader {
    type V = Map<Seq<char>, Seq<char>>;

    closed spec fn view(&self) -> Map<Seq<char>, Seq<char>> {
        assoc_map(pairs_view(self.pairs@))
    }
}

impl SignatureHeader {
    /// Looks `key` up in the parsed header.
    pub fn get<'a>(&'a self, key: &str) -> (r: Option<&'a String>)
        ensures
            match r {
                Some(v) => self@.contains_key(key@) && v@ == self@[key@],
                None => !self@.contains_key(key@),
            },
    {
        let n = self.pairs.len();
        let mut i: usize = n;
        while i > 0
            invariant
                i <= n,
                n == self.pairs.len(),
                forall|j: int| i <= j < n ==> (#[trigger] pairs_view(self.pairs@)[j]).0 != key@,
            decreases i,
        {
            i = i - 1;
            if str_eq(self.pairs[i].0.as_str(), key) {
                proof {
                    lemma_assoc_map_last_match(pairs_view(self.pairs@), key@, i as int);
                }
                return Some(&self.pairs[i].1);
            }
        }
        proof {
            lemma_assoc_map_absent(pairs_view(self.pairs@), key@);
        }
        None
    }
}

/// Parses one `key=value` segment: exactly one `=`, both tokens trimmed.
fn parse_segment(seg: &str) -> (r: Result<(String, String), ParseError>)
    ensures
        match r {
            Ok(kv) => segment_wellformed(seg@) && kv.0@ == segment_key(seg@) && kv.1@
                == segment_value(seg@),
            Err(e) => !segment_wellformed(seg@) && e == ParseError::MalformedPair,
        },
{
    let n = seg.unicode_len();
    let eq1 = match find_char_from(seg, 0, '=') {
        Some(i) => i,
        None => {
            proof {
                lemma_split_on_first(seg@, '=', seg@.len() as int);
            }
            return Err(ParseError::MalformedPair);
        },
    };
    match find_char_from(seg, eq1 + 1, '=') {
        Some(j) => {
            proof {
                lemma_split_on_first(seg@, '=', eq1 as int);
                let tail = seg@.subrange(eq1 as int + 1, seg@.len() as int);
                lemma_split_on_first(tail, '=', j - eq1 - 1);
                lemma_split_on_nonempty(tail.subrange(j - eq1, tail.len() as int), '=');
            }
            Err(ParseError::MalformedPair)
        },
        None => {
            proof {
                lemma_split_on_first(seg@, '=', eq1 as int);
                let tail = seg@.subrange(eq1 as int + 1, seg@.len() as int);
                lemma_split_on_first(tail, '=', tail.len() as int);
            }
            let tok0 = seg.substring_char(0, eq1);
            let tok1 = seg.substring_char(eq1 + 1, n);
            let k: String = trim_str(tok0).to_owned();
            let v: String = trim_str(tok1).to_owned();
            Ok((k, v))
        },
    }
}

/// Parses a signature header: the whole header is trimmed, split on `,`,
/// and each segment must split on `=` into exactly two tokens, which are
/// trimmed and inserted as a key-value pair (a repeated key overwrites the
/// earlier value).  Any segment that does not yields `MalformedPair`.
pub fn parse_stripe_signature_header(header: &str) -> (r: Result<SignatureHeader, ParseError>)
    ensures
        match r {
            Ok(m) => spec_parse_header(header@) == Ok::<Map<Seq<char>, Seq<char>>, ParseError>(m@),
            Err(e) => spec_parse_header(header@) == Err::<Map<Seq<char>, Seq<char>>, ParseError>(e),
        },
{
    let trimmed = trim_str(header);
    let n = trimmed.unicode_len();
    let ghost ts = trimmed@;
    let ghost segs = split_on(ts, ',');
    let mut pairs: Vec<(String, String)> = Vec::new();
    let mut pos: usize = 0;
    let ghost mut done: Seq<Seq<char>> = Seq::empty();
    proof {
        assert(ts.subrange(0, n as int) =~= ts);
    }
    loop
        invariant_except_break
            pos <= n,
            segs == done + split_on(ts.subrange(pos as int, n as int), ','),
        invariant
            n == ts.len(),
            ts == spec_trim(header@),
            trimmed@ == ts,
            segs == split_on(ts, ','),
            forall|i: int| 0 <= i < done.len() ==> segment_wellformed(#[trigger] done[i]),
            assoc_map(pairs_view(pairs@)) == map_of_segments(done),
        ensures
            done == segs,
        decreases n - pos,
    {
        let ghost rem = ts.subrange(pos as int, n as int);
        let found = find_char_from(trimmed, pos, ',');
        let seg_end = match found {
            Some(i) => i,
            None => n,
        };
        proof {
            lemma_split_on_first(rem, ',', seg_end - pos);
            assert(rem.subrange(0, seg_end - pos) =~= ts.subrange(pos as int, seg_end as int));
            if seg_end < n {
                assert(rem.subrange(seg_end - pos + 1, rem.len() as int) =~= ts.subrange(
                    seg_end as int + 1,
                    n as int,
                ));
            } else {
                assert(rem.subrange(0, seg_end - pos) =~= rem);
            }
        }
        let seg = trimmed.substring_char(pos, seg_end);
        match parse_segment(seg) {
            Err(e) => {
                proof {
                    lemma_split_on_nonempty(rem, ',');
                    assert(segs[done.len() as int] == seg@);
                    assert(!segment_wellformed(segs[done.len() as int]));
                }
                return Err(e);
            },
            Ok(kv) => {
                let ghost old_pairs = pairs@;
                let ghost kv_view = (kv.0@, kv.1@);
                pairs.push(kv);
                proof {
                    let ghost old_done = done;
                    done = old_done + seq![seg@];
                    assert(done.last() == seg@);
                    assert(done.drop_last() =~= old_done);
                    assert(map_of_segments(done) == map_of_segments(old_done).insert(
                        segment_key(seg@),
                        segment_value(seg@),
                    ));
                    assert(pairs_view(pairs@).last() == kv_view);
                    assert(pairs_view(pairs@).drop_last() =~= pairs_view(old_pairs));
                    assert(assoc_map(pairs_view(pairs@)) == assoc_map(pairs_view(old_pairs)).insert(
                        kv_view.0,
                        kv_view.1,
                    ));
                }
            },
        }
        if seg_end == n {
            break;
        }
        pos = seg_end + 1;
    }
    proof {
        assert(forall|i: int|
            0 <= i < segs.len() ==> segment_wellformed(#[trigger] segs[i]));
    }
    let result = SignatureHeader { pairs };
    proof {
        assert(result@ == map_of_segments(segs));
    }
    Ok(result)
}

} // verus!
