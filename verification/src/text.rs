//! Character-level string utilities shared by the tokenizer and the grammar
//! loader: equality, searching for a separator, splitting, and line
//! splitting.

use vstd::prelude::*;
use vstd::string::{StrSliceExecFns, StringExecFns};

verus! {

/// The character sequences of a list of strings.
pub open spec fn strs_view(v: Seq<String>) -> Seq<Seq<char>> {
    v.map_values(|x: String| x@)
}

/// True when the two strings hold the same characters.
pub fn str_eq(a: &str, b: &str) -> (r: bool)
    ensures
        r == (a@ == b@),
{
    let an = a.unicode_len();
    let bn = b.unicode_len();
    if an != bn {
        return false;
    }
    let mut i: usize = 0;
    while i < an
        invariant
            an == a@.len(),
            an == b@.len(),
            i <= an,
            forall|j: int| 0 <= j < i ==> a@[j] == b@[j],
        decreases an - i,
    {
        if a.get_char(i) != b.get_char(i) {
            return false;
        }
        i += 1;
    }
    proof {
        assert(a@ =~= b@);
    }
    true
}

/// The separator occurs in `s` at position `i`.
pub open spec fn occurs_at(s: Seq<char>, sep: Seq<char>, i: int) -> bool {
    0 <= i && i + sep.len() <= s.len() && s.subrange(i, i + sep.len() as int) == sep
}

/// The position of the leftmost occurrence of the separator in `s`, if any.
pub open spec fn find_sep(s: Seq<char>, sep: Seq<char>) -> Option<int>
    decreases s.len(),
{
    if occurs_at(s, sep, 0) {
        Some(0int)
    } else if s.len() == 0 {
        None
    } else {
        match find_sep(s.drop_first(), sep) {
            None => None,
            Some(i) => Some(i + 1),
        }
    }
}

/// `s` split at every occurrence of the separator, leftmost first: the
/// pieces between occurrences, in order, with an empty piece between two
/// adjacent occurrences and at either edge.  An empty separator does not
/// split at all.
pub open spec fn split_sep(s: Seq<char>, sep: Seq<char>) -> Seq<Seq<char>>
    decreases s.len(),
{
    if sep.len() == 0 || s.len() == 0 {
        seq![s]
    } else if occurs_at(s, sep, 0) {
        seq![Seq::<char>::empty()] + split_sep(s.skip(sep.len() as int), sep)
    } else {
        let rest = split_sep(s.drop_first(), sep);
        seq![seq![s[0]] + rest[0]] + rest.drop_first()
    }
}

/// Shifting the occurrence predicate across dropping the first character.
proof fn lemma_occurs_shift(s: Seq<char>, sep: Seq<char>, i: int)
    requires
        s.len() > 0,
        i >= 0,
    ensures
        occurs_at(s, sep, i + 1) == occurs_at(s.drop_first(), sep, i),
{
    if i + 1 + sep.len() <= s.len() {
        assert(s.drop_first().subrange(i, i + sep.len() as int) =~= s.subrange(
            i + 1,
            i + 1 + sep.len() as int,
        ));
    }
}

/// When nothing in `s` matches the separator, `find_sep` finds nothing.
pub proof fn lemma_find_sep_none(s: Seq<char>, sep: Seq<char>)
    requires
        forall|j: int| !occurs_at(s, sep, j),
    ensures
        find_sep(s, sep) is None,
    decreases s.len(),
{
    if !occurs_at(s, sep, 0) && s.len() > 0 {
        assert forall|j: int| !occurs_at(s.drop_first(), sep, j) by {
            if j >= 0 {
                lemma_occurs_shift(s, sep, j);
            }
        }
        lemma_find_sep_none(s.drop_first(), sep);
    }
}

/// When the separator occurs at `i` and nowhere earlier, `find_sep` finds
/// exactly `i`.
pub proof fn lemma_find_sep_some(s: Seq<char>, sep: Seq<char>, i: int)
    requires
        occurs_at(s, sep, i),
        forall|j: int| 0 <= j < i ==> !occurs_at(s, sep, j),
    ensures
        find_sep(s, sep) == Some(i),
    decreases s.len(),
{
    if i == 0 {
    } else {
        assert(!occurs_at(s, sep, 0));
        assert(s.len() > 0);
        lemma_occurs_shift(s, sep, i - 1);
        assert forall|j: int| 0 <= j < i - 1 implies !occurs_at(s.drop_first(), sep, j) by {
            lemma_occurs_shift(s, sep, j);
        }
        lemma_find_sep_some(s.drop_first(), sep, i - 1);
    }
}

/// A found occurrence lies inside `s`, and splitting takes the piece before
/// it and continues after it.
pub proof fn lemma_split_sep_found(s: Seq<char>, sep: Seq<char>, i: int)
    requires
        sep.len() >= 1,
        find_sep(s, sep) == Some(i),
    ensures
        occurs_at(s, sep, i),
        split_sep(s, sep) == seq![s.take(i)] + split_sep(s.skip(i + sep.len() as int), sep),
    decreases s.len(),
{
    if occurs_at(s, sep, 0) {
        assert(i == 0);
        assert(s.take(0) =~= Seq::<char>::empty());
        assert(seq![s.take(0)] + split_sep(s.skip(sep.len() as int), sep) =~= seq![
            Seq::<char>::empty(),
        ] + split_sep(s.skip(sep.len() as int), sep));
    } else {
        assert(s.len() > 0);
        let d = s.drop_first();
        lemma_split_sep_found(d, sep, i - 1);
        lemma_occurs_shift(s, sep, i - 1);
        let rest = split_sep(d, sep);
        let after = split_sep(d.skip(i - 1 + sep.len() as int), sep);
        assert(rest == seq![d.take(i - 1)] + after);
        assert(rest[0] == d.take(i - 1));
        assert(rest.drop_first() =~= after);
        assert(seq![s[0]] + rest[0] =~= s.take(i));
        assert(d.skip(i - 1 + sep.len() as int) =~= s.skip(i + sep.len() as int));
        assert(split_sep(s, sep) =~= seq![s.take(i)] + after);
    }
}

/// When the separator does not occur, the split is the whole of `s`.
pub proof fn lemma_split_sep_none(s: Seq<char>, sep: Seq<char>)
    requires
        sep.len() >= 1,
        find_sep(s, sep) is None,
    ensures
        split_sep(s, sep) == seq![s],
    decreases s.len(),
{
    if !occurs_at(s, sep, 0) && s.len() > 0 {
        let d = s.drop_first();
        lemma_split_sep_none(d, sep);
        let rest = split_sep(d, sep);
        assert(rest[0] == d);
        assert(rest.drop_first() =~= Seq::<Seq<char>>::empty());
        assert(seq![s[0]] + d =~= s);
        assert(split_sep(s, sep) =~= seq![s]);
    }
}

/// Whether the separator occurs in `s` at exactly position `p`.
fn matches_at(s: &str, sep: &str, p: usize) -> (r: bool)
    requires
        p + sep@.len() <= s@.len(),
        s@.len() <= usize::MAX,
    ensures
        r == occurs_at(s@, sep@, p as int),
{
    let k = sep.unicode_len();
    let mut i: usize = 0;
    while i < k
        invariant
            k == sep@.len(),
            p + k <= s@.len(),
            s@.len() <= usize::MAX,
            i <= k,
            forall|q: int| 0 <= q < i ==> s@[p + q] == sep@[q],
        decreases k - i,
    {
        if s.get_char(p + i) != sep.get_char(i) {
            proof {
                assert(s@.subrange(p as int, p + sep@.len() as int)[i as int] == s@[p + i]);
            }
            return false;
        }
        i += 1;
    }
    proof {
        assert(s@.subrange(p as int, p + sep@.len() as int) =~= sep@);
    }
    true
}

/// The position of the leftmost occurrence of `sep` in `s`, if any:
/// exactly [`find_sep`] on the two character sequences.
pub fn find_sub(s: &str, sep: &str) -> (r: Option<usize>)
    requires
        sep@.len() >= 1,
    ensures
        match r {
            Some(i) => find_sep(s@, sep@) == Some(i as int),
            None => find_sep(s@, sep@) is None,
        },
{
    let n = s.unicode_len();
    let k = sep.unicode_len();
    if k > n {
        proof {
            lemma_find_sep_none(s@, sep@);
        }
        return None;
    }
    let mut p: usize = 0;
    while p <= n - k
        invariant
            n == s@.len(),
            k == sep@.len(),
            1 <= k <= n,
            p <= n - k + 1,
            forall|j: int| 0 <= j < p ==> !occurs_at(s@, sep@, j),
        decreases n - k - p + 1,
    {
        if matches_at(s, sep, p) {
            proof {
                lemma_find_sep_some(s@, sep@, p as int);
            }
            return Some(p);
        }
        p += 1;
    }
    proof {
        lemma_find_sep_none(s@, sep@);
    }
    None
}

/// `s` split at every occurrence of `sep`, leftmost first: exactly
/// [`split_sep`] on the two character sequences.
pub fn split_str(s: &str, sep: &str) -> (r: Vec<String>)
    requires
        sep@.len() >= 1,
    ensures
        strs_view(r@) == split_sep(s@, sep@),
{
    let k = sep.unicode_len();
    let mut out: Vec<String> = Vec::new();
    let mut rem: &str = s;
    let mut done = false;
    while !done
        invariant
            k == sep@.len(),
            k >= 1,
            done ==> strs_view(out@) == split_sep(s@, sep@),
            !done ==> split_sep(s@, sep@) =~= strs_view(out@) + split_sep(rem@, sep@),
        decreases rem@.len() + (if done { 0int } else { 1int }),
    {
        match find_sub(rem, sep) {
            None => {
                let ghost old_out = out@;
                out.push(String::from_str(rem));
                proof {
                    lemma_split_sep_none(rem@, sep@);
                    assert(strs_view(out@) =~= strs_view(old_out) + seq![rem@]);
                    assert(strs_view(out@) =~= split_sep(s@, sep@));
                }
                done = true;
            },
            Some(i) => {
                proof {
                    lemma_split_sep_found(rem@, sep@, i as int);
                }
                let ghost old_out = out@;
                let ghost old_rem = rem@;
                let n = rem.unicode_len();
                let piece = rem.substring_char(0, i);
                out.push(String::from_str(piece));
                rem = rem.substring_char(i + k, n);
                proof {
                    assert(piece@ =~= old_rem.take(i as int));
                    assert(rem@ =~= old_rem.skip(i + sep@.len() as int));
                    assert(strs_view(out@) =~= strs_view(old_out) + seq![old_rem.take(i as int)]);
                    assert(strs_view(old_out) + split_sep(old_rem, sep@) =~= strs_view(out@)
                        + split_sep(rem@, sep@));
                }
            },
        }
    }
    out
}

/// A line with a final carriage return has it removed.
pub open spec fn strip_cr(l: Seq<char>) -> Seq<char> {
    if l.len() > 0 && l.last() == '\r' {
        l.drop_last()
    } else {
        l
    }
}

/// The logical lines of `s`: the pieces between newline characters, without
/// a final empty piece, each with a final carriage return removed.
pub open spec fn spec_lines(s: Seq<char>) -> Seq<Seq<char>> {
    let raw = split_sep(s, seq!['\n']);
    let trimmed = if raw.len() > 0 && raw.last().len() == 0 {
        raw.drop_last()
    } else {
        raw
    };
    trimmed.map_values(|l: Seq<char>| strip_cr(l))
}

/// The logical lines of `s`: exactly [`spec_lines`] of its characters.
pub fn split_lines(s: &str) -> (r: Vec<String>)
    ensures
        strs_view(r@) == spec_lines(s@),
{
    proof {
        reveal_strlit("\n");
        assert("\n"@ =~= seq!['\n']);
    }
    let mut raw = split_str(s, "\n");
    let ghost raw0 = strs_view(raw@);
    if raw.len() > 0 && raw[raw.len() - 1].as_str().unicode_len() == 0 {
        raw.pop();
        proof {
            assert(strs_view(raw@) =~= raw0.drop_last());
        }
    }
    let ghost trimmed = strs_view(raw@);
    let mut out: Vec<String> = Vec::new();
    let mut i: usize = 0;
    while i < raw.len()
        invariant
            i <= raw.len(),
            trimmed == strs_view(raw@),
            strs_view(out@) =~= trimmed.take(i as int).map_values(|l: Seq<char>| strip_cr(l)),
        decreases raw.len() - i,
    {
        let ghost old_out = out@;
        let li = &raw[i];
        let n = li.as_str().unicode_len();
        if n > 0 && li.as_str().get_char(n - 1) == '\r' {
            let stripped = li.as_str().substring_char(0, n - 1);
            out.push(String::from_str(stripped));
            proof {
                assert(stripped@ =~= strip_cr(trimmed[i as int]));
            }
        } else {
            out.push(li.clone());
        }
        proof {
            assert(strs_view(out@) =~= strs_view(old_out) + seq![strip_cr(trimmed[i as int])]);
            assert(trimmed.take(i + 1).map_values(|l: Seq<char>| strip_cr(l)) =~= trimmed.take(
                i as int,
            ).map_values(|l: Seq<char>| strip_cr(l)) + seq![strip_cr(trimmed[i as int])]);
        }
        i += 1;
    }
    proof {
        assert(trimmed.take(raw@.len() as int) =~= trimmed);
    }
    out
}

} // verus!
