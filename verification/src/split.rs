//! Splitting a string on `-`, the delimiter of the wire-format grammar:
//! specification and executable splitter.

use vstd::prelude::*;
use vstd::string::*;

verus! {

/// Index of the first `-` in `s`, or `s.len()` when there is none.
pub open spec fn first_dash(s: Seq<char>) -> int
    decreases s.len(),
{
    if s.len() == 0 {
        0
    } else if s[0] == '-' {
        0
    } else {
        1 + first_dash(s.skip(1))
    }
}

/// `s` holds no `-`.
pub open spec fn dash_free(s: Seq<char>) -> bool {
    forall|i: int| 0 <= i < s.len() ==> #[trigger] s[i] != '-'
}

/// The first dash is preceded only by non-dashes and, when inside the
/// string, is a dash.
pub proof fn lemma_first_dash(s: Seq<char>)
    ensures
        0 <= first_dash(s) <= s.len(),
        forall|i: int| 0 <= i < first_dash(s) ==> #[trigger] s[i] != '-',
        first_dash(s) < s.len() ==> s[first_dash(s)] == '-',
        dash_free(s) ==> first_dash(s) == s.len(),
    decreases s.len(),
{
    if s.len() == 0 {
    } else if s[0] == '-' {
    } else {
        lemma_first_dash(s.skip(1));
        assert(forall|i: int| 0 <= i < s.skip(1).len() ==> s.skip(1)[i] == #[trigger] s[i + 1]);
        assert forall|i: int| 0 <= i < first_dash(s) implies #[trigger] s[i] != '-' by {
            if i > 0 {
                assert(s.skip(1)[i - 1] != '-');
            }
        }
        if dash_free(s) {
            assert(dash_free(s.skip(1)));
        }
    }
}

/// The parts of `s` between its dashes, in order; length is one more than
/// the number of dashes, and parts may be empty.
pub open spec fn split_dash(s: Seq<char>) -> Seq<Seq<char>>
    decreases s.len(),
{
    let i = first_dash(s);
    if 0 <= i < s.len() {
        seq![s.take(i)].add(split_dash(s.subrange(i + 1, s.len() as int)))
    } else {
        seq![s]
    }
}

/// There is always at least one part.
pub proof fn lemma_split_len(s: Seq<char>)
    ensures
        split_dash(s).len() >= 1,
{
    lemma_first_dash(s);
}

/// A dash-free string is a single part.
pub proof fn lemma_split_dash_free(s: Seq<char>)
    requires
        dash_free(s),
    ensures
        split_dash(s) =~= seq![s],
{
    lemma_first_dash(s);
}

/// Splitting takes off the first dash-free part before the first dash.
pub proof fn lemma_split_prepend(s: Seq<char>, a: Seq<char>, rest: Seq<char>)
    requires
        dash_free(a),
        s =~= a.add(seq!['-']).add(rest),
    ensures
        split_dash(s) =~= seq![a].add(split_dash(rest)),
{
    lemma_first_dash(s);
    let i = first_dash(s);
    assert(s[a.len() as int] == '-');
    if i < a.len() {
        assert(s[i] == a[i]);
        assert(s[i] == '-');
        assert(false);
    }
    assert(i == a.len());
    assert(s.take(i) =~= a);
    assert(s.subrange(i + 1, s.len() as int) =~= rest);
}

/// Split `s` on `-`.
pub fn split_dash_e<'a>(s: &'a str) -> (parts: Vec<&'a str>)
    ensures
        parts.deep_view() =~= split_dash(s@),
{
    let len = s.unicode_len();
    let mut parts: Vec<&'a str> = Vec::new();
    let mut seg_start: usize = 0;
    let mut j: usize = 0;
    proof {
        assert(s@.subrange(0, len as int) =~= s@);
        assert(parts.deep_view() =~= Seq::<Seq<char>>::empty());
        assert(split_dash(s@) =~= parts.deep_view().add(split_dash(s@.subrange(0, len as int))));
    }
    while j < len
        invariant
            0 <= seg_start <= j <= len,
            len == s@.len(),
            dash_free(s@.subrange(seg_start as int, j as int)),
            split_dash(s@) =~= parts.deep_view().add(
                split_dash(s@.subrange(seg_start as int, len as int)),
            ),
        decreases len - j,
    {
        let c = s.get_char(j);
        if c == '-' {
            let part = s.substring_char(seg_start, j);
            proof {
                let rem = s@.subrange(seg_start as int, len as int);
                let rest = s@.subrange(j as int + 1, len as int);
                assert(rem =~= part@.add(seq!['-']).add(rest));
                lemma_split_prepend(rem, part@, rest);
                assert(parts.deep_view().push(part@) =~= parts.deep_view().add(seq![part@]));
            }
            parts.push(part);
            seg_start = j + 1;
            proof {
                assert(dash_free(s@.subrange(seg_start as int, j as int + 1)));
            }
        } else {
            proof {
                assert(forall|k: int|
                    seg_start <= k < j + 1 ==> #[trigger] s@[k] == s@.subrange(
                        seg_start as int,
                        j as int + 1,
                    )[k - seg_start]);
                assert(dash_free(s@.subrange(seg_start as int, j as int + 1)));
            }
        }
        j = j + 1;
    }
    let part = s.substring_char(seg_start, len);
    proof {
        lemma_split_dash_free(s@.subrange(seg_start as int, len as int));
        assert(parts.deep_view().push(part@) =~= parts.deep_view().add(seq![part@]));
    }
    parts.push(part);
    parts
}

} // verus!
