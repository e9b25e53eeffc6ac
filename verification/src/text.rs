//! Character-sequence utilities shared by the parsers: separator splitting,
//! whitespace trimming, suffix tests, and building of output strings.

use vstd::prelude::*;
use vstd::string::StrSliceExecFns;
use vstd::string::StringExecFns;

verus! {

/// The view of every string in a vector of strings.
pub open spec fn views_of_strings(v: Seq<String>) -> Seq<Seq<char>> {
    Seq::new(v.len(), |i: int| v[i]@)
}

/// Splitting a character sequence at every occurrence of `sep`.
/// The result always holds at least one (possibly empty) part, and
/// joining the parts with `sep` gives back the input.
pub open spec fn split_seq(s: Seq<char>, sep: char) -> Seq<Seq<char>>
    decreases s.len(),
{
    if s.len() == 0 {
        seq![Seq::<char>::empty()]
    } else {
        let rest = split_seq(s.drop_first(), sep);
        if s[0] == sep {
            seq![Seq::<char>::empty()] + rest
        } else {
            seq![seq![s[0]] + rest[0]] + rest.drop_first()
        }
    }
}

pub proof fn lemma_split_seq_len(s: Seq<char>, sep: char)
    ensures
        split_seq(s, sep).len() >= 1,
    decreases s.len(),
{
    if s.len() > 0 {
        lemma_split_seq_len(s.drop_first(), sep);
    }
}

/// Appending one character to the input either opens a fresh empty part
/// (when the character is the separator) or extends the last part.
pub proof fn lemma_split_seq_push(s: Seq<char>, sep: char, c: char)
    ensures
        c == sep ==> split_seq(s.push(c), sep) == split_seq(s, sep).push(
            Seq::<char>::empty(),
        ),
        c != sep ==> split_seq(s.push(c), sep) == split_seq(s, sep).update(
            split_seq(s, sep).len() - 1,
            split_seq(s, sep).last().push(c),
        ),
    decreases s.len(),
{
    lemma_split_seq_len(s, sep);
    if s.len() == 0 {
        assert(s.push(c).drop_first() =~= s);
        assert(s.push(c)[0] == c);
        if c == sep {
            assert(split_seq(s.push(c), sep) =~~= split_seq(s, sep).push(Seq::<char>::empty()));
        } else {
            assert(seq![s.push(c)[0]] + split_seq(s.push(c).drop_first(), sep)[0] =~= seq![c]);
            assert(split_seq(s.push(c), sep) =~~= split_seq(s, sep).update(
                0,
                split_seq(s, sep).last().push(c),
            ));
        }
    } else {
        let t = s.drop_first();
        lemma_split_seq_len(t, sep);
        lemma_split_seq_push(t, sep, c);
        assert(s.push(c).drop_first() =~= t.push(c));
        assert(s.push(c)[0] == s[0]);
        let rest = split_seq(t, sep);
        let restp = split_seq(t.push(c), sep);
        if c == sep {
            if s[0] == sep {
                assert(split_seq(s.push(c), sep) =~~= split_seq(s, sep).push(Seq::<char>::empty()));
            } else {
                assert(restp[0] == rest[0]);
                assert(restp.drop_first() =~~= rest.drop_first().push(Seq::<char>::empty()));
                assert(split_seq(s.push(c), sep) =~~= split_seq(s, sep).push(Seq::<char>::empty()));
            }
        } else {
            assert(restp == rest.update(rest.len() - 1, rest.last().push(c)));
            if s[0] == sep {
                assert(split_seq(s.push(c), sep) =~~= split_seq(s, sep).update(
                    split_seq(s, sep).len() - 1,
                    split_seq(s, sep).last().push(c),
                ));
            } else {
                if rest.len() == 1 {
                    assert(restp[0] == rest[0].push(c));
                    assert(restp.drop_first() =~~= rest.drop_first());
                    assert(split_seq(s.push(c), sep) =~~= split_seq(s, sep).update(
                        split_seq(s, sep).len() - 1,
                        split_seq(s, sep).last().push(c),
                    ));
                } else {
                    assert(restp[0] == rest[0]);
                    assert(restp.drop_first() =~~= rest.drop_first().update(
                        rest.drop_first().len() - 1,
                        rest.drop_first().last().push(c),
                    ));
                    assert(split_seq(s.push(c), sep) =~~= split_seq(s, sep).update(
                        split_seq(s, sep).len() - 1,
                        split_seq(s, sep).last().push(c),
                    ));
                }
            }
        }
    }
}

/// Relies on `String::push`: appends exactly the given character.
#[verifier::external_body]
pub fn push_char(s: &mut String, c: char)
    ensures
        final(s)@ == old(s)@.push(c),
{
    s.push(c);
}

/// Splits `s` at every occurrence of `sep`.
pub fn split_str(s: &str, sep: char) -> (r: Vec<String>)
    ensures
        views_of_strings(r@) == split_seq(s@, sep),
{
    let n: usize = s.unicode_len();
    let mut parts: Vec<String> = Vec::new();
    let mut cur: String = String::new();
    let mut i: usize = 0;
    proof {
        assert(s@.take(0) =~= Seq::<char>::empty());
    }
    while i < n
        invariant
            i <= n,
            n == s@.len(),
            views_of_strings(parts@).push(cur@) =~~= split_seq(s@.take(i as int), sep),
        decreases n - i,
    {
        let c = s.get_char(i);
        proof {
            assert(s@.take(i + 1).drop_last() =~= s@.take(i as int));
            assert(s@.take(i + 1) == s@.take(i as int).push(s@[i as int]));
            lemma_split_seq_push(s@.take(i as int), sep, c);
            lemma_split_seq_len(s@.take(i as int), sep);
        }
        if c == sep {
            parts.push(cur);
            cur = String::new();
            proof {
                assert(views_of_strings(parts@).push(cur@) =~~= split_seq(s@.take(i + 1), sep));
            }
        } else {
            push_char(&mut cur, c);
            proof {
                let prev = split_seq(s@.take(i as int), sep);
                assert(views_of_strings(parts@).push(cur@) =~~= prev.update(
                    prev.len() - 1,
                    prev.last().push(c),
                ));
            }
        }
        i = i + 1;
    }
    proof {
        assert(s@.take(n as int) =~= s@);
    }
    parts.push(cur);
    proof {
        assert(views_of_strings(parts@) =~~= split_seq(s@, sep));
    }
    parts
}

/// Whether `suf` is a suffix of `s`.
pub open spec fn ends_with_seq(s: Seq<char>, suf: Seq<char>) -> bool {
    suf.len() <= s.len() && s.subrange(s.len() - suf.len(), s.len() as int) == suf
}

/// Whether `s` ends with `suffix`.
pub fn has_suffix(s: &str, suffix: &str) -> (r: bool)
    ensures
        r == ends_with_seq(s@, suffix@),
{
    let n: usize = s.unicode_len();
    let m: usize = suffix.unicode_len();
    if m > n {
        return false;
    }
    let mut j: usize = 0;
    while j < m
        invariant
            j <= m,
            m <= n,
            n == s@.len(),
            m == suffix@.len(),
            forall|k: int| 0 <= k < j ==> s@[n - m + k] == suffix@[k],
        decreases m - j,
    {
        if s.get_char(n - m + j) != suffix.get_char(j) {
            proof {
                assert(s@.subrange(n - m, n as int)[j as int] != suffix@[j as int]);
            }
            return false;
        }
        j = j + 1;
    }
    proof {
        assert(s@.subrange(n - m, n as int) =~= suffix@);
    }
    true
}

/// The characters stripped by `trim`: the Unicode White_Space set, as
/// the standard library's trimming strips it.
pub open spec fn is_white_space(c: char) -> bool {
    let u = c as u32;
    (9 <= u && u <= 13) || u == 32 || u == 0x85 || u == 0xA0 || u == 0x1680 || (0x2000 <= u && u
        <= 0x200A) || u == 0x2028 || u == 0x2029 || u == 0x202F || u == 0x205F || u == 0x3000
}

pub open spec fn trim_start_spec(s: Seq<char>) -> Seq<char>
    decreases s.len(),
{
    if s.len() > 0 && is_white_space(s[0]) {
        trim_start_spec(s.drop_first())
    } else {
        s
    }
}

pub open spec fn trim_end_spec(s: Seq<char>) -> Seq<char>
    decreases s.len(),
{
    if s.len() > 0 && is_white_space(s.last()) {
        trim_end_spec(s.drop_last())
    } else {
        s
    }
}

/// `s` with leading and trailing whitespace removed.
pub open spec fn trim_spec(s: Seq<char>) -> Seq<char> {
    trim_end_spec(trim_start_spec(s))
}

proof fn lemma_trim_start_skip(s: Seq<char>, i: int)
    requires
        0 <= i <= s.len(),
        forall|k: int| 0 <= k < i ==> is_white_space(s[k]),
        i < s.len() ==> !is_white_space(s[i]),
    ensures
        trim_start_spec(s) == s.skip(i),
    decreases i,
{
    if i == 0 {
        assert(s.skip(0) =~= s);
    } else {
        assert(is_white_space(s[0]));
        lemma_trim_start_skip(s.drop_first(), i - 1);
        assert(s.drop_first().skip(i - 1) =~= s.skip(i));
    }
}

proof fn lemma_trim_end_take(s: Seq<char>, j: int)
    requires
        0 <= j <= s.len(),
        forall|k: int| j <= k < s.len() ==> is_white_space(s[k]),
        j > 0 ==> !is_white_space(s[j - 1]),
    ensures
        trim_end_spec(s) == s.take(j),
    decreases s.len() - j,
{
    if j == s.len() {
        assert(s.take(j) =~= s);
    } else {
        assert(is_white_space(s.last()));
        lemma_trim_end_take(s.drop_last(), j);
        assert(s.drop_last().take(j) =~= s.take(j));
    }
}

fn is_space_char(c: char) -> (r: bool)
    ensures
        r == is_white_space(c),
{
    let u = c as u32;
    (9 <= u && u <= 13) || u == 32 || u == 0x85 || u == 0xA0 || u == 0x1680 || (0x2000 <= u && u
        <= 0x200A) || u == 0x2028 || u == 0x2029 || u == 0x202F || u == 0x205F || u == 0x3000
}

/// `s` with leading and trailing whitespace removed.
pub fn trim(s: &str) -> (r: String)
    ensures
        r@ == trim_spec(s@),
{
    let n: usize = s.unicode_len();
    let mut i: usize = 0;
    while i < n && is_space_char(s.get_char(i))
        invariant
            i <= n,
            n == s@.len(),
            forall|k: int| 0 <= k < i ==> is_white_space(s@[k]),
        decreases n - i,
    {
        i = i + 1;
    }
    proof {
        lemma_trim_start_skip(s@, i as int);
    }
    if i == n {
        proof {
            assert(s@.skip(i as int) =~= Seq::<char>::empty());
        }
        return String::new();
    }
    let mut j: usize = n;
    while j > i && is_space_char(s.get_char(j - 1))
        invariant
            i <= j <= n,
            n == s@.len(),
            forall|k: int| j <= k < n ==> is_white_space(s@[k]),
        decreases j,
    {
        j = j - 1;
    }
    // the character at position i is not whitespace, so the trimmed tail
    // reaches at least past it
    proof {
        let t = s@.skip(i as int);
        lemma_trim_end_take(t, j - i);
        assert(t.take(j - i) =~= s@.subrange(i as int, j as int));
    }
    s.substring_char(i, j).to_owned()
}

/// `s` without one trailing carriage return, if it carries one.
pub open spec fn strip_cr_spec(s: Seq<char>) -> Seq<char> {
    if s.len() > 0 && s.last() == '\r' {
        s.drop_last()
    } else {
        s
    }
}

/// Removes one trailing carriage return, so that files with either line
/// ending decode alike.
pub fn strip_cr(s: &str) -> (r: String)
    ensures
        r@ == strip_cr_spec(s@),
{
    let n: usize = s.unicode_len();
    if n > 0 && s.get_char(n - 1) == '\r' {
        proof {
            assert(s@.subrange(0, n - 1) =~= s@.drop_last());
        }
        s.substring_char(0, n - 1).to_owned()
    } else {
        s.to_owned()
    }
}

} // verus!
