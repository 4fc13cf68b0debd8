//! What holds of searching, trimming, splitting, clipping, replacing and
//! numbers, whatever the text.
use vstd::prelude::*;
use vstd::utf8::*;
use crate::text;

verus! {

/// A text stands wherever it was put, and only there is it found: `p` stands in
/// `s` at a position exactly if so many characters, `p` and something else make
/// up `s`.
pub proof fn law_occurrence(before: Seq<char>, p: Seq<char>, behind: Seq<char>)
    ensures
        text::occurs_at(before + p + behind, p, before.len() as int),
        text::contains(before + p + behind, p),
        text::starts_with(p + behind, p),
        text::ends_with(before + p, p),
{
    let s = before + p + behind;
    assert(s.subrange(before.len() as int, before.len() as int + p.len()) =~= p);
    assert(text::occurs_at(s, p, before.len() as int));
    assert((p + behind).subrange(0, p.len() as int) =~= p);
    assert((before + p).subrange(before.len() as int, before.len() as int + p.len()) =~= p);
}

/// Where a text stands, the whole falls into what is before it, itself, and what
/// is behind it.
pub proof fn law_occurrence_splits(s: Seq<char>, p: Seq<char>, i: int)
    requires
        text::occurs_at(s, p, i),
    ensures
        0 <= i,
        i + p.len() <= s.len(),
        s == s.take(i) + p + s.skip(i + p.len()),
{
    assert(s.take(i) + s.subrange(i, i + p.len()) + s.skip(i + p.len()) =~= s);
}

/// A text that holds, begins or ends with another is made up of it and the rest.
pub proof fn law_containing_text_splits(s: Seq<char>, p: Seq<char>)
    ensures
        text::contains(s, p) ==> exists|i: int|
            0 <= i <= s.len() - p.len() && s == #[trigger] s.take(i) + p + s.skip(i + p.len()),
        text::starts_with(s, p) ==> p.len() <= s.len() && s == p + s.skip(p.len() as int),
        text::ends_with(s, p) ==> p.len() <= s.len() && s == s.take(s.len() - p.len()) + p,
{
    if text::contains(s, p) {
        let i = choose|i: int| text::occurs_at(s, p, i);
        law_occurrence_splits(s, p, i);
    }
    if text::starts_with(s, p) {
        law_occurrence_splits(s, p, 0);
        assert(s.take(0) + p + s.skip(p.len() as int) =~= p + s.skip(p.len() as int));
    }
    if text::ends_with(s, p) {
        law_occurrence_splits(s, p, s.len() - p.len());
        assert(s.take(s.len() - p.len()) + p + s.skip(s.len() as int) =~= s.take(
            s.len() - p.len(),
        ) + p);
    }
}

/// A text is found where it stands first, and found if it stands anywhere.
pub proof fn law_first_place_is_found(s: Seq<char>, p: Seq<char>)
    ensures
        match text::find(s, p) {
            Some(k) => 0 <= k <= s.len() - p.len() && s.subrange(k, k + p.len()) == p && forall|
                j: int,
            |
                #![trigger s.subrange(j, j + p.len())]
                0 <= j < k ==> s.subrange(j, j + p.len()) != p,
            None => forall|j: int|
                #![trigger s.subrange(j, j + p.len())]
                0 <= j <= s.len() - p.len() ==> s.subrange(j, j + p.len()) != p,
        },
{
    text::lemma_find_from(s, p, 0);
    assert forall|j: int|
        #![trigger s.subrange(j, j + p.len())]
        0 <= j <= s.len() - p.len() implies (s.subrange(j, j + p.len()) == p)
        == text::occurs_at(s, p, j) by {}
}

/// Trimming takes away white space at the ends, all of it, and nothing else.
pub proof fn law_trimming(s: Seq<char>)
    ensures
        ({
            let n = text::trim_start(s).len();
            &&& n <= s.len()
            &&& text::trim_start(s) == s.skip(s.len() - n)
            &&& forall|i: int| 0 <= i < s.len() - n ==> text::is_white_space(#[trigger] s[i])
            &&& n > 0 ==> !text::is_white_space(text::trim_start(s)[0])
        }),
        ({
            let n = text::trim_end(s).len();
            &&& n <= s.len()
            &&& text::trim_end(s) == s.take(n as int)
            &&& forall|i: int| n <= i < s.len() ==> text::is_white_space(#[trigger] s[i])
            &&& n > 0 ==> !text::is_white_space(text::trim_end(s).last())
        }),
{
    lemma_trim_start(s);
    lemma_trim_end(s);
}

proof fn lemma_trim_start(s: Seq<char>)
    ensures
        ({
            let n = text::trim_start(s).len();
            &&& n <= s.len()
            &&& text::trim_start(s) == s.skip(s.len() - n)
            &&& forall|i: int| 0 <= i < s.len() - n ==> text::is_white_space(#[trigger] s[i])
            &&& n > 0 ==> !text::is_white_space(text::trim_start(s)[0])
        }),
    decreases s.len(),
{
    if s.len() > 0 && text::is_white_space(s[0]) {
        let rest = s.drop_first();
        lemma_trim_start(rest);
        let n = text::trim_start(s).len();
        assert(rest.skip(rest.len() - n) =~= s.skip(s.len() - n));
        assert forall|i: int| 0 <= i < s.len() - n implies text::is_white_space(
            #[trigger] s[i],
        ) by {
            if i > 0 {
                assert(rest[i - 1] == s[i]);
            }
        }
    } else {
        assert(s.skip(0) =~= s);
    }
}

proof fn lemma_trim_end(s: Seq<char>)
    ensures
        ({
            let n = text::trim_end(s).len();
            &&& n <= s.len()
            &&& text::trim_end(s) == s.take(n as int)
            &&& forall|i: int| n <= i < s.len() ==> text::is_white_space(#[trigger] s[i])
            &&& n > 0 ==> !text::is_white_space(text::trim_end(s).last())
        }),
    decreases s.len(),
{
    if s.len() > 0 && text::is_white_space(s.last()) {
        let rest = s.drop_last();
        lemma_trim_end(rest);
        let n = text::trim_end(s).len();
        assert(rest.take(n as int) =~= s.take(n as int));
        assert forall|i: int| n <= i < s.len() implies text::is_white_space(#[trigger] s[i]) by {
            if i < rest.len() {
                assert(rest[i] == s[i]);
            }
        }
    } else {
        assert(s.take(s.len() as int) =~= s);
    }
}

/// White space around a text that neither begins nor ends with any is what
/// trimming takes away.
pub proof fn law_surrounding_space_is_trimmed(a: Seq<char>, s: Seq<char>, b: Seq<char>)
    requires
        forall|i: int| 0 <= i < a.len() ==> text::is_white_space(#[trigger] a[i]),
        forall|i: int| 0 <= i < b.len() ==> text::is_white_space(#[trigger] b[i]),
        s.len() > 0,
        !text::is_white_space(s[0]),
        !text::is_white_space(s.last()),
    ensures
        text::trim(a + s + b) == s,
        text::trim_end(s + b) == s,
        !text::is_blank(a + s + b),
{
    let whole = a + s + b;
    let t = text::trim_start(whole);
    law_trimming(whole);
    assert(whole[a.len() as int] == s[0]);
    let cut = whole.len() - t.len();
    if cut > a.len() {
        assert(text::is_white_space(whole[a.len() as int]));
    }
    if cut < a.len() {
        assert(t[0] == whole[cut]);
        assert(whole[cut] == a[cut]);
    }
    assert(t =~= s + b);
    law_trimming(t);
    let n = text::trim_end(t).len() as int;
    if n > s.len() {
        assert(text::trim_end(t).last() == t[n - 1]);
        assert(t[n - 1] == b[n - 1 - s.len()]);
    }
    if n < s.len() {
        assert(t[s.len() - 1] == s.last());
        assert(text::is_white_space(t[s.len() - 1]));
    }
    assert(text::trim_end(t) =~= s);
}

/// A text that is all white space is blank, is trimmed to nothing, and no other
/// text is.
pub proof fn law_blank_text(s: Seq<char>)
    ensures
        text::is_blank(s) <==> (forall|i: int|
            0 <= i < s.len() ==> text::is_white_space(#[trigger] s[i])),
        text::is_blank(s) <==> text::trim(s).len() == 0,
{
    law_trimming(s);
    let t = text::trim_start(s);
    law_trimming(t);
    if text::is_blank(s) {
        if t.len() > 0 {
            assert(t[0] == s[s.len() - t.len()]);
        }
    } else {
        let i = choose|i: int| 0 <= i < s.len() && !text::is_white_space(s[i]);
        let cut = s.len() - t.len();
        assert(cut <= i);
        assert(t[i - cut] == s[i]);
    }
}

/// The lines of a text: a line without a line feed, a line feed and a rest give
/// that line, without one carriage return at its end, and the lines of the rest.
/// What has no line feed is one line, and nothing is no line.
pub proof fn law_lines(line: Seq<char>, rest: Seq<char>)
    requires
        forall|i: int| 0 <= i < line.len() ==> #[trigger] line[i] != '\n',
    ensures
        text::lines(line + seq!['\n'] + rest) == seq![line] + text::lines(rest) || (line.len() > 0
            && line.last() == '\r'),
        text::lines(line + seq!['\r', '\n'] + rest) == seq![line] + text::lines(rest),
        line.len() > 0 ==> text::lines(line) == seq![line],
        text::lines(Seq::<char>::empty()) == Seq::<Seq<char>>::empty(),
{
    lemma_line(line, rest);
    let cr = line.push('\r');
    lemma_line(cr, rest);
    assert(cr + seq!['\n'] + rest =~= line + seq!['\r', '\n'] + rest);
    assert(cr.drop_last() =~= line);
    text::lemma_first_line_feed(line);
    if let Some(k) = text::find(line, seq!['\n']) {
        assert(line[k] == '\n');
    }
}

/// A line and what follows it.
pub proof fn lemma_line(line: Seq<char>, rest: Seq<char>)
    requires
        forall|i: int| 0 <= i < line.len() ==> #[trigger] line[i] != '\n',
    ensures
        text::lines(line + seq!['\n'] + rest) == seq![text::strip_carriage_return(line)]
            + text::lines(rest),
{
    let s = line + seq!['\n'] + rest;
    let k = line.len() as int;
    assert(s[k] == '\n');
    text::lemma_occurs_char(s, '\n', k);
    assert forall|j: int| 0 <= j < k implies !#[trigger] text::occurs_at(s, seq!['\n'], j) by {
        text::lemma_occurs_char(s, '\n', j);
        assert(s[j] == line[j]);
    }
    text::lemma_find_from_is(s, seq!['\n'], 0, k);
    assert(s.take(k) =~= line);
    assert(s.skip(k + 1) =~= rest);
}

/// Clipping leaves the longest beginning that fits into so many bytes.
pub proof fn law_clipping(s: Seq<char>, limit: nat, n: int)
    requires
        0 <= n <= s.len(),
    ensures
        ({
            let kept = text::clip(s, limit);
            &&& kept.len() <= s.len()
            &&& kept == s.take(kept.len() as int)
            &&& encode_utf8(kept).len() <= limit
            &&& encode_utf8(s.take(n)).len() <= limit ==> n <= kept.len()
        }),
{
    text::lemma_clip(s, limit);
    let m = text::clip(s, limit).len() as int;
    if n > m {
        lemma_longer_takes_more(s, m + 1, n);
    }
}

/// A longer beginning takes no fewer bytes.
proof fn lemma_longer_takes_more(s: Seq<char>, m: int, n: int)
    requires
        0 <= m <= n <= s.len(),
    ensures
        encode_utf8(s.take(m)).len() <= encode_utf8(s.take(n)).len(),
    decreases m,
{
    if m > 0 {
        let a = s.take(m);
        let b = s.take(n);
        assert(a.drop_first() =~= s.drop_first().take(m - 1));
        assert(b.drop_first() =~= s.drop_first().take(n - 1));
        lemma_longer_takes_more(s.drop_first(), m - 1, n - 1);
        assert(encode_utf8(a).len() == encode_scalar(s[0] as u32).len() + encode_utf8(
            a.drop_first(),
        ).len());
        assert(encode_utf8(b).len() == encode_scalar(s[0] as u32).len() + encode_utf8(
            b.drop_first(),
        ).len());
    } else {
        assert(s.take(0) =~= Seq::<char>::empty());
    }
}

/// Replacing goes from left to right: up to the first place at which the pattern
/// stands nothing changes, there its replacement comes in, and the rest is taken
/// alike. Without the pattern nothing changes.
pub proof fn law_replacing(a: Seq<char>, p: Seq<char>, b: Seq<char>, w: Seq<char>)
    requires
        p.len() > 0,
    ensures
        text::find(a + p + b, p) == Some(a.len() as int) ==> text::replace_all(a + p + b, p, w)
            == a + w + text::replace_all(b, p, w),
        !text::contains(a, p) ==> text::replace_all(a, p, w) == a,
{
    let s = a + p + b;
    assert(s.take(a.len() as int) =~= a);
    assert(s.skip((a.len() + p.len()) as int) =~= b);
    text::lemma_find_from(a, p, 0);
}

/// A number in decimal: its digits, none of them in vain, stand for the number.
pub proof fn law_decimal(n: nat)
    ensures
        n < 10 ==> text::decimal(n) == seq![(48 + n) as char],
        n >= 10 ==> text::decimal(n) == text::decimal(n / 10).push((48 + n % 10) as char),
        text::number(text::decimal(n)) == n,
{
    text::lemma_decimal_number(n);
}

/// One digit more makes a number ten times as large, and as much larger as the
/// digit says.
pub proof fn law_number(s: Seq<char>, d: nat)
    requires
        d < 10,
    ensures
        text::number(s.push((48 + d) as char)) == 10 * text::number(s) + d,
        text::number(Seq::<char>::empty()) == 0,
{
    assert(s.push((48 + d) as char).drop_last() =~= s);
}

/// A text is read as the number that its digits stand for, with a plus sign in
/// front or without; a text with anything else in it, without digits, or with a
/// number that is too large is read as none.
pub proof fn law_reading_a_number(s: Seq<char>)
    ensures
        ({
            let digits = s.len() > 0 && forall|i: int|
                0 <= i < s.len() ==> '0' <= #[trigger] s[i] <= '9';
            let fits = text::number(s) <= 0xFFFF_FFFF_FFFF_FFFF;
            &&& digits && fits ==> text::parse_u64(s) == Some(text::number(s) as u64)
            &&& digits && fits ==> text::parse_u64(seq!['+'] + s) == Some(text::number(s) as u64)
            &&& digits && !fits ==> text::parse_u64(s) is None && text::parse_u64(
                seq!['+'] + s,
            ) is None
            &&& !digits ==> text::parse_u64(seq!['+'] + s) is None
            &&& !digits && !(s.len() > 0 && s[0] == '+') ==> text::parse_u64(s) is None
        }),
{
    assert((seq!['+'] + s).drop_first() =~= s);
    assert(forall|i: int| 0 <= i < s.len() ==> text::is_digit(#[trigger] s[i]) == ('0' <= s[i]
        <= '9'));
}

} // verus!
