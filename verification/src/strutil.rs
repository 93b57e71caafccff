//! Small verified string utilities shared by the dispatch engine:
//! labelled trace entries, joining, substring search, lookup by name,
//! decimal formatting, white space, and value-preserving copies.

use vstd::prelude::*;
use vstd::string::StrSliceExecFns;
use vstd::string::StringExecFns;

verus! {

/// `"<name>: <out>"`, the shape of one trace entry.
pub open spec fn label_seq(name: Seq<char>, out: Seq<char>) -> Seq<char> {
    name + ": "@ + out
}

/// Build one `"<name>: <out>"` trace entry.
pub fn label_of(name: &str, out: &str) -> (r: String)
    ensures
        r@ == label_seq(name@, out@),
{
    let mut r = name.to_owned();
    r.append(": ");
    r.append(out);
    r
}

/// Equality of two string slices, decided through their `String` forms.
pub fn str_eq(a: &str, b: &str) -> (r: bool)
    ensures
        r == (a@ == b@),
{
    a.to_owned() == b.to_owned()
}

/// The characters of `needle` occur in `hay` starting at position `i`.
pub open spec fn matches_at(hay: Seq<char>, needle: Seq<char>, i: int) -> bool {
    forall|j: int| 0 <= j < needle.len() ==> hay[i + j] == needle[j]
}

/// `needle` occurs somewhere in `hay` (substring containment).
pub open spec fn contains_seq(hay: Seq<char>, needle: Seq<char>) -> bool {
    exists|i: int| 0 <= i <= hay.len() - needle.len() && matches_at(hay, needle, i)
}

fn match_at(hay: &str, needle: &str, i: usize, hn: usize, nn: usize) -> (r: bool)
    requires
        hn == hay@.len(),
        nn == needle@.len(),
        i + nn <= hn,
    ensures
        r == matches_at(hay@, needle@, i as int),
{
    let mut j: usize = 0;
    while j < nn
        invariant
            hn == hay@.len(),
            nn == needle@.len(),
            i + nn <= hn,
            j <= nn,
            forall|l: int| 0 <= l < j ==> hay@[i + l] == needle@[l],
        decreases nn - j,
    {
        if hay.get_char(i + j) != needle.get_char(j) {
            return false;
        }
        j += 1;
    }
    true
}

/// Substring search: does `needle` occur in `hay`?
pub fn contains_sub(hay: &str, needle: &str) -> (r: bool)
    ensures
        r == contains_seq(hay@, needle@),
{
    let hn = hay.unicode_len();
    let nn = needle.unicode_len();
    if nn > hn {
        return false;
    }
    let mut i: usize = 0;
    while i <= hn - nn
        invariant
            hn == hay@.len(),
            nn == needle@.len(),
            nn <= hn,
            i <= hn - nn + 1,
            forall|k: int| 0 <= k < i ==> !matches_at(hay@, needle@, k),
        decreases hn - nn + 1 - i,
    {
        if match_at(hay, needle, i, hn, nn) {
            return true;
        }
        i += 1;
    }
    false
}

/// The first position of `x` in `s`, if any.
pub open spec fn seq_index_of(s: Seq<Seq<char>>, x: Seq<char>) -> Option<int>
    decreases s.len(),
{
    if s.len() == 0 {
        None
    } else {
        match seq_index_of(s.drop_last(), x) {
            Some(i) => Some(i),
            None => if s.last() == x {
                Some(s.len() - 1)
            } else {
                None
            },
        }
    }
}

/// What `seq_index_of` returns: the first position holding `x`, or nothing
/// when `x` does not occur.
pub proof fn lemma_seq_index_of(s: Seq<Seq<char>>, x: Seq<char>)
    ensures
        match seq_index_of(s, x) {
            Some(i) => 0 <= i < s.len() && s[i] == x && forall|k: int| 0 <= k < i ==> s[k] != x,
            None => forall|k: int| 0 <= k < s.len() ==> s[k] != x,
        },
    decreases s.len(),
{
    if s.len() > 0 {
        lemma_seq_index_of(s.drop_last(), x);
        assert(forall|k: int| 0 <= k < s.len() - 1 ==> s[k] == s.drop_last()[k]);
    }
}

/// Find the first element of `v` whose characters equal those of `x`.
pub fn index_of_str(v: &Vec<String>, x: &str) -> (r: Option<usize>)
    ensures
        match r {
            Some(i) => seq_index_of(v.deep_view(), x@) == Some(i as int),
            None => seq_index_of(v.deep_view(), x@) is None,
        },
{
    let ghost dv = v.deep_view();
    proof {
        lemma_seq_index_of(dv, x@);
        assert(dv.len() == v@.len());
    }
    let mut i: usize = 0;
    while i < v.len()
        invariant
            dv == v.deep_view(),
            dv.len() == v@.len(),
            i <= v@.len(),
            forall|k: int| 0 <= k < i ==> dv[k] != x@,
            match seq_index_of(dv, x@) {
                Some(j) => 0 <= j < dv.len() && dv[j] == x@ && forall|k: int|
                    0 <= k < j ==> dv[k] != x@,
                None => forall|k: int| 0 <= k < dv.len() ==> dv[k] != x@,
            },
        decreases v@.len() - i,
    {
        proof {
            assert(dv[i as int] == v@[i as int]@);
        }
        if str_eq(v[i].as_str(), x) {
            return Some(i);
        }
        i += 1;
    }
    None
}

/// The usual decimal digits.
pub open spec fn digit_char(d: int) -> char {
    if d == 0 {
        '0'
    } else if d == 1 {
        '1'
    } else if d == 2 {
        '2'
    } else if d == 3 {
        '3'
    } else if d == 4 {
        '4'
    } else if d == 5 {
        '5'
    } else if d == 6 {
        '6'
    } else if d == 7 {
        '7'
    } else {
        if d == 8 {
            '8'
        } else {
            '9'
        }
    }
}

/// The decimal representation of `n`, most significant digit first.
pub open spec fn dec_rep(n: nat) -> Seq<char>
    decreases n,
{
    if n < 10 {
        seq![digit_char(n as int)]
    } else {
        dec_rep((n / 10) as nat).push(digit_char((n % 10) as int))
    }
}

fn digit_str(d: u64) -> (r: String)
    requires
        d < 10,
    ensures
        r@ =~= seq![digit_char(d as int)],
{
    let s: &str = if d == 0 {
        "0"
    } else if d == 1 {
        "1"
    } else if d == 2 {
        "2"
    } else if d == 3 {
        "3"
    } else if d == 4 {
        "4"
    } else if d == 5 {
        "5"
    } else if d == 6 {
        "6"
    } else if d == 7 {
        "7"
    } else if d == 8 {
        "8"
    } else {
        "9"
    };
    proof {
        reveal_strlit("0");
        reveal_strlit("1");
        reveal_strlit("2");
        reveal_strlit("3");
        reveal_strlit("4");
        reveal_strlit("5");
        reveal_strlit("6");
        reveal_strlit("7");
        reveal_strlit("8");
        reveal_strlit("9");
    }
    s.to_owned()
}

/// Format `n` in decimal.
pub fn fmt_u64(n: u64) -> (r: String)
    ensures
        r@ == dec_rep(n as nat),
    decreases n,
{
    if n < 10 {
        digit_str(n)
    } else {
        let mut s = fmt_u64(n / 10);
        let d = digit_str(n % 10);
        s.append(d.as_str());
        proof {
            assert(s@ =~= dec_rep((n / 10) as nat).push(digit_char((n % 10) as int)));
        }
        s
    }
}

/// `parts` joined with the separator `sep` between consecutive entries.
pub open spec fn join_seq(parts: Seq<Seq<char>>, sep: Seq<char>) -> Seq<char>
    decreases parts.len(),
{
    if parts.len() == 0 {
        Seq::empty()
    } else if parts.len() == 1 {
        parts[0]
    } else {
        parts[0] + sep + join_seq(parts.drop_first(), sep)
    }
}

/// Joining one more part appends a separator and the part.
pub proof fn lemma_join_push(parts: Seq<Seq<char>>, sep: Seq<char>, x: Seq<char>)
    ensures
        join_seq(parts.push(x), sep) == if parts.len() == 0 {
            x
        } else {
            join_seq(parts, sep) + sep + x
        },
    decreases parts.len(),
{
    if parts.len() == 0 {
        assert(parts.push(x).len() == 1);
        assert(join_seq(parts.push(x), sep) == parts.push(x)[0]);
    } else if parts.len() == 1 {
        assert(parts.push(x).drop_first() =~= seq![x]);
        assert(parts.push(x)[0] == parts[0]);
        assert(join_seq(seq![x], sep) == x);
        assert(join_seq(parts.push(x), sep) == parts[0] + sep + x);
    } else {
        lemma_join_push(parts.drop_first(), sep, x);
        assert(parts.push(x).drop_first() =~= parts.drop_first().push(x));
        assert((parts[0] + sep + join_seq(parts.drop_first(), sep)) + sep + x =~= parts[0] + sep
            + (join_seq(parts.drop_first(), sep) + sep + x));
    }
}

/// Join the parts with `sep` between consecutive entries.
pub fn join_with(parts: &Vec<String>, sep: &str) -> (r: String)
    ensures
        r@ == join_seq(parts.deep_view(), sep@),
{
    let ghost dv = parts.deep_view();
    proof {
        assert(dv.len() == parts@.len());
    }
    let mut acc = String::new();
    let mut i: usize = 0;
    while i < parts.len()
        invariant
            dv == parts.deep_view(),
            dv.len() == parts@.len(),
            i <= parts@.len(),
            acc@ == join_seq(dv.take(i as int), sep@),
        decreases parts@.len() - i,
    {
        if i > 0 {
            acc.append(sep);
        }
        acc.append(parts[i].as_str());
        proof {
            assert(dv[i as int] == parts@[i as int]@);
            lemma_join_push(dv.take(i as int), sep@, dv[i as int]);
            assert(dv.take(i as int).push(dv[i as int]) =~= dv.take(i + 1));
        }
        i += 1;
    }
    proof {
        assert(dv.take(parts@.len() as int) =~= dv);
    }
    acc
}

/// A copy whose value the verifier knows equals the original's.
pub trait Dup: Sized {
    fn dup(&self) -> (r: Self)
        ensures
            r == *self,
    ;
}

impl Dup for String {
    fn dup(&self) -> (r: Self)
        ensures
            r == *self,
    {
        self.clone()
    }
}

/// Copy a vector element by element, keeping the value.
pub fn dup_vec<T: Dup>(v: &Vec<T>) -> (r: Vec<T>)
    ensures
        r@ == v@,
{
    let mut r: Vec<T> = Vec::new();
    let mut i: usize = 0;
    while i < v.len()
        invariant
            i <= v@.len(),
            r@ =~= v@.take(i as int),
        decreases v@.len() - i,
    {
        r.push(v[i].dup());
        i += 1;
    }
    proof {
        assert(v@.take(v@.len() as int) =~= v@);
    }
    r
}

/// The characters with the Unicode white-space property, as
/// `char::is_whitespace` classifies them.
pub open spec fn is_wsp(c: char) -> bool {
    ||| c == ' '
    ||| c == '\t'
    ||| c == '\n'
    ||| c == '\u{000B}'
    ||| c == '\u{000C}'
    ||| c == '\r'
    ||| c == '\u{0085}'
    ||| c == '\u{00A0}'
    ||| c == '\u{1680}'
    ||| c == '\u{2000}'
    ||| c == '\u{2001}'
    ||| c == '\u{2002}'
    ||| c == '\u{2003}'
    ||| c == '\u{2004}'
    ||| c == '\u{2005}'
    ||| c == '\u{2006}'
    ||| c == '\u{2007}'
    ||| c == '\u{2008}'
    ||| c == '\u{2009}'
    ||| c == '\u{200A}'
    ||| c == '\u{2028}'
    ||| c == '\u{2029}'
    ||| c == '\u{202F}'
    ||| c == '\u{205F}'
    ||| c == '\u{3000}'
}

/// How many leading white-space characters `s` has.
pub open spec fn trim_start_len(s: Seq<char>) -> nat
    decreases s.len(),
{
    if s.len() > 0 && is_wsp(s[0]) {
        1 + trim_start_len(s.drop_first())
    } else {
        0
    }
}

/// How many trailing white-space characters `s` has.
pub open spec fn trim_end_len(s: Seq<char>) -> nat
    decreases s.len(),
{
    if s.len() > 0 && is_wsp(s.last()) {
        1 + trim_end_len(s.drop_last())
    } else {
        0
    }
}

/// `s` without leading and trailing white space.
pub open spec fn trim_seq(s: Seq<char>) -> Seq<char> {
    let rest = s.skip(trim_start_len(s) as int);
    rest.take(rest.len() - trim_end_len(rest) as int)
}

} // verus!
