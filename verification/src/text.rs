//! Character-level text helpers shared by the parsing modules: a total
//! splitter at a separator character with an executable counterpart, prefix
//! and substring predicates, and trusted bridges to std's string conversions.

use vstd::prelude::*;
use vstd::string::StrSliceExecFns;

verus! {

/// The pieces of `s` between occurrences of `sep`, in order. There is one
/// piece more than there are separators; pieces may be empty.
pub open spec fn split_char(s: Seq<char>, sep: char) -> Seq<Seq<char>>
    decreases s.len(),
{
    if s.len() == 0 {
        seq![Seq::<char>::empty()]
    } else if s[0] == sep {
        seq![Seq::<char>::empty()] + split_char(s.drop_first(), sep)
    } else {
        let rest = split_char(s.drop_first(), sep);
        seq![seq![s[0]] + rest[0]] + rest.drop_first()
    }
}

pub proof fn lemma_split_char_len(s: Seq<char>, sep: char)
    ensures
        split_char(s, sep).len() >= 1,
    decreases s.len(),
{
    if s.len() == 0 {
    } else if s[0] == sep {
    } else {
        lemma_split_char_len(s.drop_first(), sep);
    }
}

/// If no separator occurs in `s` before position `i`, and `i` is either a
/// separator or the end, then the first piece of the split is `s[..i]` and
/// the remaining pieces are the split of what follows the separator.
pub proof fn lemma_split_char_step(s: Seq<char>, sep: char, i: int)
    requires
        0 <= i <= s.len(),
        forall|j: int| 0 <= j < i ==> s[j] != sep,
        i < s.len() ==> s[i] == sep,
    ensures
        i < s.len() ==> split_char(s, sep) == seq![s.subrange(0, i)] + split_char(
            s.subrange(i + 1, s.len() as int),
            sep,
        ),
        i == s.len() ==> split_char(s, sep) == seq![s],
    decreases s.len(),
{
    lemma_split_char_len(s, sep);
    if i == s.len() {
        if s.len() == 0 {
            assert(split_char(s, sep) =~~= seq![s]);
        } else {
            lemma_split_char_step(s.drop_first(), sep, i - 1);
            let rest = split_char(s.drop_first(), sep);
            assert(rest == seq![s.drop_first()]);
            assert(seq![s[0]] + rest[0] =~= s);
            assert(split_char(s, sep) =~~= seq![s]);
        }
    } else if i == 0 {
        assert(s[0] == sep);
        assert(s.subrange(0, 0) =~= Seq::<char>::empty());
        assert(s.subrange(1, s.len() as int) =~= s.drop_first());
        assert(split_char(s, sep) =~~= seq![s.subrange(0, 0)] + split_char(
            s.subrange(1, s.len() as int),
            sep,
        ));
    } else {
        assert(s[0] != sep);
        let tail = s.drop_first();
        lemma_split_char_step(tail, sep, i - 1);
        lemma_split_char_len(s.subrange(i + 1, s.len() as int), sep);
        let rest = split_char(tail, sep);
        assert(tail.subrange(0, i - 1) =~= s.subrange(1, i));
        assert(tail.subrange(i, tail.len() as int) =~= s.subrange(i + 1, s.len() as int));
        assert(rest == seq![s.subrange(1, i)] + split_char(
            s.subrange(i + 1, s.len() as int),
            sep,
        ));
        assert(seq![s[0]] + rest[0] =~= s.subrange(0, i));
        assert(rest.drop_first() =~~= split_char(s.subrange(i + 1, s.len() as int), sep));
        assert(split_char(s, sep) =~~= seq![s.subrange(0, i)] + split_char(
            s.subrange(i + 1, s.len() as int),
            sep,
        ));
    }
}

/// `pat` occurs somewhere inside `s`.
pub open spec fn contains_seq(s: Seq<char>, pat: Seq<char>) -> bool {
    exists|i: int| 0 <= i && i + pat.len() <= s.len() && #[trigger] s.subrange(i, i + pat.len())
        == pat
}

/// The characters of `s`, as a vector with constant-time access.
pub fn str_chars(s: &str) -> (r: Vec<char>)
    ensures
        r@ == s@,
{
    let n = s.unicode_len();
    let mut r: Vec<char> = Vec::new();
    let mut i: usize = 0;
    while i < n
        invariant
            i <= n,
            n == s@.len(),
            r@ == s@.take(i as int),
        decreases n - i,
    {
        r.push(s.get_char(i));
        i = i + 1;
        proof {
            assert(r@ =~= s@.take(i as int));
        }
    }
    proof {
        assert(s@.take(n as int) =~= s@);
    }
    r
}

/// The position of the first occurrence of `sep` in `cs[lo..hi]`, or `hi` if
/// there is none.
pub fn scan_for(cs: &Vec<char>, lo: usize, hi: usize, sep: char) -> (r: usize)
    requires
        lo <= hi <= cs@.len(),
    ensures
        lo <= r <= hi,
        forall|j: int| lo <= j < r ==> cs@[j] != sep,
        r < hi ==> cs@[r as int] == sep,
{
    let mut i: usize = lo;
    while i < hi
        invariant
            lo <= i <= hi <= cs@.len(),
            forall|j: int| lo <= j < i ==> cs@[j] != sep,
        decreases hi - i,
    {
        if cs[i] == sep {
            return i;
        }
        i = i + 1;
    }
    i
}

/// Half-open index ranges of the pieces of `cs[lo..hi]` between occurrences
/// of `sep`, matching `split_char` of that segment piece for piece. Ranges
/// are absolute indices into `cs`.
pub fn split_ranges_in(cs: &Vec<char>, lo: usize, hi: usize, sep: char) -> (r: Vec<
    (usize, usize),
>)
    requires
        lo <= hi <= cs@.len(),
    ensures
        r@.len() == split_char(cs@.subrange(lo as int, hi as int), sep).len(),
        forall|k: int|
            0 <= k < r@.len() ==> lo <= (#[trigger] r@[k]).0 <= r@[k].1 <= hi && split_char(
                cs@.subrange(lo as int, hi as int),
                sep,
            )[k] == cs@.subrange(r@[k].0 as int, r@[k].1 as int),
{
    let mut r: Vec<(usize, usize)> = Vec::new();
    let mut pos: usize = lo;
    let ghost full = split_char(cs@.subrange(lo as int, hi as int), sep);
    let ghost done: Seq<Seq<char>> = Seq::empty();
    loop
        invariant_except_break
            full == done + split_char(cs@.subrange(pos as int, hi as int), sep),
        invariant
            lo <= pos <= hi <= cs@.len(),
            full == split_char(cs@.subrange(lo as int, hi as int), sep),
            done.len() == r@.len(),
            forall|k: int|
                0 <= k < r@.len() ==> lo <= (#[trigger] r@[k]).0 <= r@[k].1 <= hi && done[k]
                    == cs@.subrange(r@[k].0 as int, r@[k].1 as int),
        ensures
            full == done,
            done.len() == r@.len(),
            forall|k: int|
                0 <= k < r@.len() ==> lo <= (#[trigger] r@[k]).0 <= r@[k].1 <= hi && done[k]
                    == cs@.subrange(r@[k].0 as int, r@[k].1 as int),
        decreases hi - pos,
    {
        let q = scan_for(cs, pos, hi, sep);
        r.push((pos, q));
        proof {
            let suffix = cs@.subrange(pos as int, hi as int);
            assert(suffix.subrange(0, q - pos) =~= cs@.subrange(pos as int, q as int));
            assert forall|j: int| 0 <= j < q - pos implies suffix[j] != sep by {
                assert(suffix[j] == cs@[pos + j]);
            }
            lemma_split_char_step(suffix, sep, q - pos);
            if q < hi {
                assert(suffix.subrange(q - pos + 1, suffix.len() as int) =~= cs@.subrange(
                    q + 1,
                    hi as int,
                ));
            }
            done = done + seq![cs@.subrange(pos as int, q as int)];
            if q < hi {
                assert(full =~~= done + split_char(cs@.subrange(q + 1, hi as int), sep));
            } else {
                assert(full =~~= done);
            }
        }
        if q == hi {
            break ;
        }
        pos = q + 1;
    }
    r
}

/// `cs[lo..lo+pat.len()]` equals `pat`, with `pat` fitting inside `cs[lo..hi]`.
pub fn range_has_prefix(cs: &Vec<char>, lo: usize, hi: usize, pat: &Vec<char>) -> (r: bool)
    requires
        lo <= hi <= cs@.len(),
    ensures
        r <==> (hi - lo >= pat@.len() && cs@.subrange(lo as int, lo + pat@.len()) == pat@),
{
    let m = pat.len();
    if hi - lo < m {
        return false;
    }
    let mut i: usize = 0;
    while i < m
        invariant
            i <= m,
            m == pat@.len(),
            lo <= hi <= cs@.len(),
            hi - lo >= m,
            forall|j: int| 0 <= j < i ==> cs@[lo + j] == pat@[j],
        decreases m - i,
    {
        if cs[lo + i] != pat[i] {
            proof {
                assert(cs@.subrange(lo as int, lo + pat@.len())[i as int] == cs@[lo + i]);
            }
            return false;
        }
        i = i + 1;
    }
    proof {
        assert(cs@.subrange(lo as int, lo + pat@.len()) =~= pat@);
    }
    true
}

/// `pat` occurs somewhere inside `cs[lo..hi]`.
pub fn range_contains(cs: &Vec<char>, lo: usize, hi: usize, pat: &Vec<char>) -> (r: bool)
    requires
        lo <= hi <= cs@.len(),
    ensures
        r <==> contains_seq(cs@.subrange(lo as int, hi as int), pat@),
{
    let m = pat.len();
    let ghost sub = cs@.subrange(lo as int, hi as int);
    if hi - lo < m {
        proof {
            assert(!contains_seq(sub, pat@));
        }
        return false;
    }
    if m == 0 {
        proof {
            let l = pat@.len() as int;
            assert(sub.subrange(0, 0 + l) =~= pat@);
            assert(contains_seq(sub, pat@));
        }
        return true;
    }
    let mut i: usize = lo;
    while i <= hi - m
        invariant
            lo <= i,
            i <= hi - m + 1,
            1 <= m,
            m == pat@.len(),
            lo + m <= hi <= cs@.len(),
            sub == cs@.subrange(lo as int, hi as int),
            forall|k: int|
                0 <= k < i - lo ==> #[trigger] sub.subrange(k, k + pat@.len()) != pat@,
        decreases hi - i,
    {
        if range_has_prefix(cs, i, hi, pat) {
            proof {
                assert(sub.subrange(i - lo, i - lo + pat@.len()) =~= cs@.subrange(
                    i as int,
                    i + pat@.len(),
                ));
                assert(contains_seq(sub, pat@));
            }
            return true;
        }
        proof {
            assert(sub.subrange(i - lo, i - lo + pat@.len()) =~= cs@.subrange(
                i as int,
                i + pat@.len(),
            ));
        }
        i = i + 1;
    }
    proof {
        assert forall|k: int|
            0 <= k && k + pat@.len() <= sub.len() implies #[trigger] sub.subrange(
            k,
            k + pat@.len(),
        ) != pat@ by {
            assert(k < i - lo);
        }
    }
    false
}

/// Relies on `str` formatting via `format!`: the result is the two inputs
/// joined, character for character.
#[verifier::external_body]
pub fn concat_str(a: &str, b: &str) -> (r: String)
    ensures
        r@ == a@ + b@,
{
    format!("{}{}", a, b)
}

/// Relies on `String::from_utf8`: it succeeds exactly on valid UTF-8 input
/// and returns the string whose character sequence is the decoding of the
/// input bytes.
#[verifier::external_body]
pub fn string_from_utf8(v: Vec<u8>) -> (r: Option<String>)
    ensures
        r is Some <==> vstd::utf8::valid_utf8(v@),
        r matches Some(s) ==> s@ == vstd::utf8::decode_utf8(v@),
{
    String::from_utf8(v).ok()
}

} // verus!
