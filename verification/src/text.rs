//! Character-level string operations: substring search and replacement,
//! stated over `Seq<char>` views.

use vstd::prelude::*;
use vstd::string::StrSliceExecFns;
use vstd::string::StringExecFns;

verus! {

/// The pattern `pat` occurs in `text` starting at position `i`.
pub open spec fn occurs_at(text: Seq<char>, pat: Seq<char>, i: int) -> bool {
    0 <= i && i + pat.len() <= text.len() && text.subrange(i, i + pat.len()) == pat
}

/// The pattern `pat` occurs somewhere in `text`.
pub open spec fn contains_seq(text: Seq<char>, pat: Seq<char>) -> bool {
    exists|i: int| occurs_at(text, pat, i)
}

/// Every occurrence of a non-empty `pat` in `text`, scanned left to right
/// without overlap, replaced by `to`. An empty pattern replaces nothing.
pub open spec fn replace_seq(text: Seq<char>, pat: Seq<char>, to: Seq<char>) -> Seq<char>
    decreases text.len(),
{
    if pat.len() == 0 || text.len() < pat.len() {
        text
    } else if text.subrange(0, pat.len() as int) == pat {
        to + replace_seq(text.skip(pat.len() as int), pat, to)
    } else {
        seq![text[0]] + replace_seq(text.skip(1), pat, to)
    }
}

/// A text in which the pattern never occurs is left unchanged by replacement.
pub proof fn lemma_replace_absent(text: Seq<char>, pat: Seq<char>, to: Seq<char>)
    requires
        !contains_seq(text, pat),
    ensures
        replace_seq(text, pat, to) == text,
    decreases text.len(),
{
    if pat.len() == 0 || text.len() < pat.len() {
    } else {
        assert(!occurs_at(text, pat, 0));
        assert(text.subrange(0, pat.len() as int) != pat);
        assert forall|i: int| !occurs_at(text.skip(1), pat, i) by {
            if occurs_at(text.skip(1), pat, i) {
                assert(text.skip(1).subrange(i, i + pat.len()) =~= text.subrange(
                    i + 1,
                    i + 1 + pat.len(),
                ));
                assert(occurs_at(text, pat, i + 1));
            }
        }
        lemma_replace_absent(text.skip(1), pat, to);
        assert(seq![text[0]] + text.skip(1) =~= text);
    }
}

/// Whether `pat` stands at position `i` of `text`.
fn matches_at(text: &str, i: usize, pat: &str) -> (b: bool)
    requires
        i + pat@.len() <= text@.len(),
    ensures
        b == (text@.subrange(i as int, i + pat@.len()) == pat@),
{
    let text_len = text.unicode_len();
    let pat_len = pat.unicode_len();
    let mut j: usize = 0;
    while j < pat_len
        invariant
            text_len == text@.len(),
            i + pat_len <= text_len,
            pat_len == pat@.len(),
            0 <= j <= pat_len,
            forall|k: int| 0 <= k < j ==> text@[i + k] == pat@[k],
        decreases pat_len - j,
    {
        if text.get_char(i + j) != pat.get_char(j) {
            assert(text@.subrange(i as int, i + pat@.len())[j as int] != pat@[j as int]);
            return false;
        }
        j = j + 1;
    }
    assert(text@.subrange(i as int, i + pat@.len()) =~= pat@);
    true
}

/// Every occurrence of `pat` in `text` replaced by `to`, scanning left to
/// right without overlap.
pub fn replace_all(text: &str, pat: &str, to: &str) -> (r: String)
    ensures
        r@ == replace_seq(text@, pat@, to@),
{
    let text_len = text.unicode_len();
    let pat_len = pat.unicode_len();
    if pat_len == 0 || text_len < pat_len {
        return text.to_owned();
    }
    let mut res = String::new();
    let mut i: usize = 0;
    let mut run: usize = 0;
    proof {
        assert(text@.skip(0) =~= text@);
        assert(res@ + text@.subrange(0, 0) + replace_seq(text@, pat@, to@) =~= replace_seq(
            text@,
            pat@,
            to@,
        ));
    }
    while i <= text_len - pat_len
        invariant
            text_len == text@.len(),
            pat_len == pat@.len(),
            0 < pat_len <= text_len,
            0 <= run <= i <= text_len,
            res@ + text@.subrange(run as int, i as int) + replace_seq(
                text@.skip(i as int),
                pat@,
                to@,
            ) == replace_seq(text@, pat@, to@),
        decreases text_len - i,
    {
        let ghost res0 = res@;
        let ghost i0 = i as int;
        let ghost run0 = run as int;
        if matches_at(text, i, pat) {
            res.append(text.substring_char(run, i));
            res.append(to);
            i = i + pat_len;
            run = i;
            proof {
                let rest = text@.skip(i0);
                assert(rest.subrange(0, pat@.len() as int) =~= text@.subrange(
                    i0,
                    i0 + pat@.len(),
                ));
                assert(rest.len() >= pat@.len());
                assert(replace_seq(rest, pat@, to@) == to@ + replace_seq(
                    rest.skip(pat@.len() as int),
                    pat@,
                    to@,
                ));
                assert(rest.skip(pat@.len() as int) =~= text@.skip(i as int));
                assert(res@ =~= res0 + text@.subrange(run0, i0) + to@);
                assert(text@.subrange(run as int, i as int) =~= Seq::<char>::empty());
                assert(res@ + text@.subrange(run as int, i as int) + replace_seq(
                    text@.skip(i as int),
                    pat@,
                    to@,
                ) =~= res0 + text@.subrange(run0, i0) + (to@ + replace_seq(
                    text@.skip(i as int),
                    pat@,
                    to@,
                )));
            }
        } else {
            i = i + 1;
            proof {
                let rest = text@.skip(i0);
                assert(rest.subrange(0, pat@.len() as int) =~= text@.subrange(
                    i0,
                    i0 + pat@.len(),
                ));
                assert(rest.len() >= pat@.len());
                assert(replace_seq(rest, pat@, to@) == seq![rest[0]] + replace_seq(
                    rest.skip(1),
                    pat@,
                    to@,
                ));
                assert(rest[0] == text@[i0]);
                assert(rest.skip(1) =~= text@.skip(i0 + 1));
                assert(res0 + text@.subrange(run0, i0 + 1) + replace_seq(
                    text@.skip(i0 + 1),
                    pat@,
                    to@,
                ) =~= res0 + text@.subrange(run0, i0) + (seq![text@[i0]] + replace_seq(
                    text@.skip(i0 + 1),
                    pat@,
                    to@,
                )));
            }
        }
    }
    proof {
        assert(text@.skip(i as int).len() < pat@.len());
        assert(replace_seq(text@.skip(i as int), pat@, to@) == text@.skip(i as int));
        assert(res@ + text@.subrange(run as int, text_len as int) =~= res@ + text@.subrange(
            run as int,
            i as int,
        ) + text@.skip(i as int));
    }
    res.append(text.substring_char(run, text_len));
    res
}

/// All the pieces of `parts` joined in order.
pub open spec fn concat_all(parts: Seq<Seq<char>>) -> Seq<char>
    decreases parts.len(),
{
    if parts.len() == 0 {
        Seq::empty()
    } else {
        parts[0] + concat_all(parts.skip(1))
    }
}

pub proof fn lemma_concat_all_push(parts: Seq<Seq<char>>, last: Seq<char>)
    ensures
        concat_all(parts.push(last)) == concat_all(parts) + last,
    decreases parts.len(),
{
    if parts.len() == 0 {
        assert(parts.push(last)[0] == last);
        assert(parts.push(last).skip(1) =~= Seq::<Seq<char>>::empty());
        assert(concat_all(parts.push(last)) == last + concat_all(Seq::<Seq<char>>::empty()));
        assert(last + Seq::<char>::empty() =~= Seq::<char>::empty() + last);
    } else {
        assert(parts.push(last).skip(1) =~= parts.skip(1).push(last));
        lemma_concat_all_push(parts.skip(1), last);
        assert(parts[0] + (concat_all(parts.skip(1)) + last) =~= (parts[0] + concat_all(
            parts.skip(1),
        )) + last);
    }
}

/// All the strings of `parts` joined in order.
pub fn concat_strings(parts: &Vec<String>) -> (r: String)
    ensures
        r@ == concat_all(parts.deep_view()),
{
    let mut res = String::new();
    let mut i: usize = 0;
    while i < parts.len()
        invariant
            0 <= i <= parts.len(),
            res@ == concat_all(parts.deep_view().subrange(0, i as int)),
        decreases parts.len() - i,
    {
        let ghost dv = parts.deep_view();
        res.append(parts[i].as_str());
        i = i + 1;
        proof {
            assert(dv.subrange(0, i as int) =~= dv.subrange(0, i - 1).push(dv[i - 1]));
            lemma_concat_all_push(dv.subrange(0, i - 1), dv[i - 1]);
        }
    }
    proof {
        assert(parts.deep_view().subrange(0, parts.len() as int) =~= parts.deep_view());
    }
    res
}

/// `text` split on the separator `sep`: the segments between occurrences,
/// in order. Splitting the empty text gives one empty segment, as
/// splitting on a separator in Rust does.
pub open spec fn split_seq(text: Seq<char>, sep: char) -> Seq<Seq<char>>
    decreases text.len(),
{
    if text.len() == 0 {
        seq![Seq::<char>::empty()]
    } else if text[0] == sep {
        seq![Seq::<char>::empty()] + split_seq(text.skip(1), sep)
    } else {
        let rest = split_seq(text.skip(1), sep);
        seq![seq![text[0]] + rest[0]] + rest.skip(1)
    }
}

pub proof fn lemma_split_len(text: Seq<char>, sep: char)
    ensures
        split_seq(text, sep).len() >= 1,
    decreases text.len(),
{
    if text.len() != 0 {
        lemma_split_len(text.skip(1), sep);
    }
}

/// The segments of the remainder, with `prefix` glued onto the first one.
spec fn glue_first(prefix: Seq<char>, segs: Seq<Seq<char>>) -> Seq<Seq<char>> {
    seq![prefix + segs[0]] + segs.skip(1)
}

/// `text` split on `sep` into owned segments.
pub fn split_char(text: &str, sep: char) -> (r: Vec<String>)
    ensures
        r.deep_view() == split_seq(text@, sep),
{
    let text_len = text.unicode_len();
    let mut r: Vec<String> = Vec::new();
    let mut seg_start: usize = 0;
    let mut i: usize = 0;
    proof {
        assert(text@.skip(0) =~= text@);
        lemma_split_len(text@, sep);
        assert(text@.subrange(0, 0) =~= Seq::<char>::empty());
        assert(Seq::<char>::empty() + split_seq(text@, sep)[0] =~= split_seq(text@, sep)[0]);
        assert(glue_first(Seq::<char>::empty(), split_seq(text@, sep)) =~= split_seq(text@, sep));
        assert(r.deep_view() + glue_first(text@.subrange(0, 0), split_seq(text@, sep))
            =~= split_seq(text@, sep));
    }
    while i < text_len
        invariant
            text_len == text@.len(),
            0 <= seg_start <= i <= text_len,
            r.deep_view() + glue_first(
                text@.subrange(seg_start as int, i as int),
                split_seq(text@.skip(i as int), sep),
            ) == split_seq(text@, sep),
        decreases text_len - i,
    {
        let ghost dv0 = r.deep_view();
        let ghost i0 = i as int;
        let ghost s0 = seg_start as int;
        let ghost rest = split_seq(text@.skip(i0), sep);
        proof {
            assert(text@.skip(i0)[0] == text@[i0]);
            assert(text@.skip(i0).skip(1) =~= text@.skip(i0 + 1));
            lemma_split_len(text@.skip(i0 + 1), sep);
        }
        if text.get_char(i) == sep {
            r.push(text.substring_char(seg_start, i).to_owned());
            i = i + 1;
            seg_start = i;
            proof {
                let tail = split_seq(text@.skip(i0 + 1), sep);
                assert(rest =~= seq![Seq::<char>::empty()] + tail);
                assert(rest[0] =~= Seq::<char>::empty());
                assert(rest.skip(1) =~= tail);
                assert(text@.subrange(s0, i0) + rest[0] =~= text@.subrange(s0, i0));
                assert(glue_first(text@.subrange(s0, i0), rest) =~= seq![
                    text@.subrange(s0, i0),
                ] + tail);
                assert(r.deep_view() =~= dv0.push(text@.subrange(s0, i0)));
                assert(text@.subrange(i as int, i as int) =~= Seq::<char>::empty());
                assert(Seq::<char>::empty() + tail[0] =~= tail[0]);
                assert(glue_first(Seq::<char>::empty(), tail) =~= tail);
                assert(r.deep_view() + glue_first(
                    text@.subrange(seg_start as int, i as int),
                    split_seq(text@.skip(i as int), sep),
                ) =~= dv0 + glue_first(text@.subrange(s0, i0), rest));
            }
        } else {
            i = i + 1;
            proof {
                let tail = split_seq(text@.skip(i0 + 1), sep);
                assert(rest =~= seq![seq![text@[i0]] + tail[0]] + tail.skip(1));
                assert(rest[0] =~= seq![text@[i0]] + tail[0]);
                assert(rest.skip(1) =~= tail.skip(1));
                assert(text@.subrange(s0, i0) + (seq![text@[i0]] + tail[0]) =~= text@.subrange(
                    s0,
                    i0 + 1,
                ) + tail[0]);
                assert(glue_first(text@.subrange(s0, i0), rest) =~= glue_first(
                    text@.subrange(s0, i0 + 1),
                    tail,
                ));
            }
        }
    }
    proof {
        assert(text@.skip(i as int) =~= Seq::<char>::empty());
        let rest = split_seq(text@.skip(i as int), sep);
        assert(rest =~= seq![Seq::<char>::empty()]);
        assert(text@.subrange(seg_start as int, i as int) + rest[0] =~= text@.subrange(
            seg_start as int,
            i as int,
        ));
        assert(rest.skip(1) =~= Seq::<Seq<char>>::empty());
        assert(glue_first(text@.subrange(seg_start as int, i as int), rest) =~= seq![
            text@.subrange(seg_start as int, i as int),
        ]);
    }
    let ghost dv0 = r.deep_view();
    r.push(text.substring_char(seg_start, text_len).to_owned());
    proof {
        assert(r.deep_view() =~= dv0.push(text@.subrange(seg_start as int, text_len as int)));
        assert(r.deep_view() =~= split_seq(text@, sep));
    }
    r
}

/// The character standing for a single decimal digit.
pub open spec fn digit_char(d: nat) -> char {
    if d == 0 {
        '0'
    } else if d == 1 {
        '1'
    } else if d == 2 {
        '2'
    } else if d == 3 {
        '3'
    } else if d == 4 {
        '4'
    } else if d == 5 {
        '5'
    } else if d == 6 {
        '6'
    } else if d == 7 {
        '7'
    } else if d == 8 {
        '8'
    } else {
        '9'
    }
}

/// The decimal rendering of `n`, most significant digit first, no leading
/// zeros (a single zero for zero itself).
pub open spec fn dec_digits(n: nat) -> Seq<char>
    decreases n,
{
    if n < 10 {
        seq![digit_char(n)]
    } else {
        dec_digits(n / 10).push(digit_char(n % 10))
    }
}

fn digit_str(d: usize) -> (r: &'static str)
    requires
        d < 10,
    ensures
        r@ == seq![digit_char(d as nat)],
{
    proof {
        reveal_strlit("0");
        reveal_strlit("1");
        reveal_strlit("2");
        reveal_strlit("3");
        reveal_strlit("4");
        reveal_strlit("5");
        reveal_strlit("6");
        reveal_strlit("7");
        reveal_strlit("8");
        reveal_strlit("9");
    }
    let r = if d == 0 {
        "0"
    } else if d == 1 {
        "1"
    } else if d == 2 {
        "2"
    } else if d == 3 {
        "3"
    } else if d == 4 {
        "4"
    } else if d == 5 {
        "5"
    } else if d == 6 {
        "6"
    } else if d == 7 {
        "7"
    } else if d == 8 {
        "8"
    } else {
        "9"
    };
    proof {
        assert(r@ =~= seq![digit_char(d as nat)]);
    }
    r
}

/// The decimal rendering of `n`.
pub fn usize_to_string(n: usize) -> (r: String)
    ensures
        r@ == dec_digits(n as nat),
    decreases n,
{
    if n < 10 {
        digit_str(n).to_owned()
    } else {
        let mut s = usize_to_string(n / 10);
        s.append(digit_str(n % 10));
        proof {
            assert(dec_digits((n / 10) as nat).push(digit_char((n % 10) as nat)) =~= dec_digits(
                (n / 10) as nat,
            ) + seq![digit_char((n % 10) as nat)]);
        }
        s
    }
}

/// Whether two string slices hold the same characters.
pub fn str_eq(a: &str, b: &str) -> (r: bool)
    ensures
        r == (a@ == b@),
{
    let a_len = a.unicode_len();
    let b_len = b.unicode_len();
    if a_len != b_len {
        return false;
    }
    let r = matches_at(a, 0, b);
    proof {
        assert(a@.subrange(0, a@.len() as int) =~= a@);
    }
    r
}

/// Whether the character `c` occurs in `text`.
pub fn contains_char(text: &str, c: char) -> (b: bool)
    ensures
        b == text@.contains(c),
{
    let text_len = text.unicode_len();
    let mut i: usize = 0;
    while i < text_len
        invariant
            text_len == text@.len(),
            0 <= i <= text_len,
            forall|k: int| 0 <= k < i ==> text@[k] != c,
        decreases text_len - i,
    {
        if text.get_char(i) == c {
            return true;
        }
        i = i + 1;
    }
    false
}

/// Whether `text` begins with the character `c`.
pub fn starts_with_char(text: &str, c: char) -> (b: bool)
    ensures
        b == (text@.len() > 0 && text@[0] == c),
{
    let text_len = text.unicode_len();
    if text_len == 0 {
        false
    } else {
        text.get_char(0) == c
    }
}

/// Whether `text` ends with the character `c`.
pub fn ends_with_char(text: &str, c: char) -> (b: bool)
    ensures
        b == (text@.len() > 0 && text@[text@.len() - 1] == c),
{
    let text_len = text.unicode_len();
    if text_len == 0 {
        false
    } else {
        text.get_char(text_len - 1) == c
    }
}

} // verus!
