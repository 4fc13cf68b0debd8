//! Text as sequences of characters: searching, trimming, splitting into lines
//! and clipping to a number of bytes.
use vstd::prelude::*;
use vstd::slice::slice_subrange;
use vstd::utf8::*;

verus! {

/// `String::push` of the standard library: it appends one character.
pub assume_specification[ String::push ](s: &mut String, c: char)
    ensures
        final(s)@ == old(s)@.push(c),
;

/// What `String::from_utf8_lossy` of the standard library makes of some bytes.
pub uninterp spec fn lossy_utf8(bytes: Seq<u8>) -> Seq<char>;

/// The bytes are all continuation bytes: in valid UTF-8 each would stand behind
/// the first byte of its character.
pub open spec fn only_continuation_bytes(bytes: Seq<u8>) -> bool {
    forall|i: int| 0 <= i < bytes.len() ==> 0x80 <= #[trigger] bytes[i] <= 0xBF
}

/// The text is made of replacement characters alone.
pub open spec fn only_replacements(s: Seq<char>) -> bool {
    forall|i: int| 0 <= i < s.len() ==> #[trigger] s[i] == '\u{FFFD}'
}

/// `s` is `rest` with nothing in front of it but replacement characters.
pub open spec fn is_behind_replacements(s: Seq<char>, rest: Seq<char>) -> bool {
    &&& rest.len() <= s.len()
    &&& only_replacements(s.take(s.len() - rest.len()))
    &&& s.skip(s.len() - rest.len()) == rest
}

/// `String::from_utf8_lossy` of the standard library. Its result is a function
/// of the bytes, and bytes that are valid UTF-8 give the text that they encode.
/// Where the bytes are valid from some place on, the text that they encode from
/// there ends the result, behind what the bytes before that place give; and if
/// those are all continuation bytes, which form no character, they give nothing
/// but replacement characters. How many of those stand for invalid bytes is left
/// unsaid.
#[verifier::external_body]
pub(crate) fn decode_lossy(bytes: &[u8]) -> (r: String)
    ensures
        r@ == lossy_utf8(bytes@),
        valid_utf8(bytes@) ==> r@ == decode_utf8(bytes@),
        forall|k: int|
            0 <= k <= bytes@.len() && valid_utf8(#[trigger] bytes@.skip(k)) ==> r@ == lossy_utf8(
                bytes@.take(k),
            ) + decode_utf8(bytes@.skip(k)),
        forall|k: int|
            0 <= k <= bytes@.len() && valid_utf8(#[trigger] bytes@.skip(k))
                && only_continuation_bytes(bytes@.take(k)) ==> is_behind_replacements(
                r@,
                decode_utf8(bytes@.skip(k)),
            ),
{
    String::from_utf8_lossy(bytes).into_owned()
}

/// The pattern `p` stands in `s` at position `i`.
pub open spec fn occurs_at(s: Seq<char>, p: Seq<char>, i: int) -> bool {
    0 <= i && i + p.len() <= s.len() && s.subrange(i, i + p.len()) == p
}

/// The pattern `p` stands somewhere in `s`.
pub open spec fn contains(s: Seq<char>, p: Seq<char>) -> bool {
    exists|i: int| occurs_at(s, p, i)
}

/// The pattern `p` begins `s`.
pub open spec fn starts_with(s: Seq<char>, p: Seq<char>) -> bool {
    occurs_at(s, p, 0)
}

/// The pattern `p` ends `s`.
pub open spec fn ends_with(s: Seq<char>, p: Seq<char>) -> bool {
    occurs_at(s, p, s.len() - p.len())
}

/// The first position at or after `from` at which `p` stands in `s`.
pub open spec fn find_from(s: Seq<char>, p: Seq<char>, from: int) -> Option<int>
    decreases s.len() - from + 1,
{
    if from < 0 || from + p.len() > s.len() {
        None
    } else if occurs_at(s, p, from) {
        Some(from)
    } else {
        find_from(s, p, from + 1)
    }
}

/// The first position at which `p` stands in `s`.
pub open spec fn find(s: Seq<char>, p: Seq<char>) -> Option<int> {
    find_from(s, p, 0)
}

/// The characters with the Unicode property White_Space.
pub open spec fn is_white_space(c: char) -> bool {
    let u = c as u32;
    ||| 0x9 <= u <= 0xD
    ||| u == 0x20
    ||| u == 0x85
    ||| u == 0xA0
    ||| u == 0x1680
    ||| 0x2000 <= u <= 0x200A
    ||| u == 0x2028
    ||| u == 0x2029
    ||| u == 0x202F
    ||| u == 0x205F
    ||| u == 0x3000
}

/// `s` without the white space that it begins with.
pub open spec fn trim_start(s: Seq<char>) -> Seq<char>
    decreases s.len(),
{
    if s.len() > 0 && is_white_space(s[0]) {
        trim_start(s.drop_first())
    } else {
        s
    }
}

/// `s` without the white space that it ends with.
pub open spec fn trim_end(s: Seq<char>) -> Seq<char>
    decreases s.len(),
{
    if s.len() > 0 && is_white_space(s.last()) {
        trim_end(s.drop_last())
    } else {
        s
    }
}

/// `s` without the white space at either end.
pub open spec fn trim(s: Seq<char>) -> Seq<char> {
    trim_end(trim_start(s))
}

/// `s` holds nothing but white space.
pub open spec fn is_blank(s: Seq<char>) -> bool {
    forall|i: int| 0 <= i < s.len() ==> is_white_space(#[trigger] s[i])
}

/// `s` without one carriage return at its end.
pub open spec fn strip_carriage_return(s: Seq<char>) -> Seq<char> {
    if s.len() > 0 && s.last() == '\r' {
        s.drop_last()
    } else {
        s
    }
}

/// The lines of `s`: each ends with a line feed, alone or behind a carriage
/// return, and the end of the last one may be missing.
pub open spec fn lines(s: Seq<char>) -> Seq<Seq<char>>
    decreases s.len(),
{
    if s.len() == 0 {
        seq![]
    } else {
        match find(s, seq!['\n']) {
            Some(k) => if 0 <= k < s.len() {
                seq![strip_carriage_return(s.take(k))] + lines(s.skip(k + 1))
            } else {
                seq![s]
            },
            None => seq![s],
        }
    }
}

/// The number of bytes that `s` takes in UTF-8.
pub open spec fn byte_len(s: Seq<char>) -> nat {
    encode_utf8(s).len()
}

/// The longest prefix of `s` that takes at most `limit` bytes in UTF-8.
pub open spec fn clip(s: Seq<char>, limit: nat) -> Seq<char>
    decreases s.len(),
{
    if s.len() == 0 || encode_scalar(s[0] as u32).len() > limit {
        seq![]
    } else {
        seq![s[0]] + clip(s.drop_first(), (limit - encode_scalar(s[0] as u32).len()) as nat)
    }
}

/// `s` with every occurrence of `p`, found from left to right, replaced by `w`.
pub open spec fn replace_all(s: Seq<char>, p: Seq<char>, w: Seq<char>) -> Seq<char>
    decreases s.len(),
{
    match find(s, p) {
        Some(k) => if 0 <= k && 0 < p.len() && k + p.len() <= s.len() {
            s.take(k) + w + replace_all(s.skip(k + p.len()), p, w)
        } else {
            s
        },
        None => s,
    }
}

/// The character of a decimal digit.
pub open spec fn digit(d: nat) -> char {
    ('0' as u32 + d) as char
}

/// A number in decimal, without leading zeros.
pub open spec fn decimal(n: nat) -> Seq<char>
    decreases n,
{
    if n < 10 {
        seq![digit(n)]
    } else {
        decimal(n / 10).push(digit(n % 10))
    }
}

/// `c` is one of the ten decimal digits.
pub open spec fn is_digit(c: char) -> bool {
    '0' <= c <= '9'
}

/// The number that a sequence of decimal digits stands for.
pub open spec fn number(s: Seq<char>) -> nat
    decreases s.len(),
{
    if s.len() == 0 {
        0
    } else {
        number(s.drop_last()) * 10 + (s.last() as u32 - '0' as u32) as nat
    }
}

/// `s` without one plus sign in front.
pub open spec fn strip_plus(s: Seq<char>) -> Seq<char> {
    if s.len() > 0 && s[0] == '+' {
        s.drop_first()
    } else {
        s
    }
}

/// The unsigned 64-bit number that `s` writes in decimal, if it is one: an
/// optional plus sign and at least one digit.
pub open spec fn parse_u64(s: Seq<char>) -> Option<u64> {
    let d = strip_plus(s);
    if d.len() > 0 && (forall|i: int| 0 <= i < d.len() ==> is_digit(#[trigger] d[i])) && number(d)
        <= u64::MAX {
        Some(number(d) as u64)
    } else {
        None
    }
}

/// What `find_from` returns is the least position, and it returns one if
/// there is any.
pub proof fn lemma_find_from(s: Seq<char>, p: Seq<char>, from: int)
    requires
        0 <= from,
    ensures
        find_from(s, p, from) matches Some(k) ==> from <= k && occurs_at(s, p, k) && forall|j: int|
            from <= j < k ==> !#[trigger] occurs_at(s, p, j),
        find_from(s, p, from) is None ==> forall|j: int|
            from <= j ==> !#[trigger] occurs_at(s, p, j),
    decreases s.len() - from + 1,
{
    if from + p.len() <= s.len() && !occurs_at(s, p, from) {
        lemma_find_from(s, p, from + 1);
    }
}

/// A position at which the pattern stands, with none before it, is what
/// `find_from` returns.
pub proof fn lemma_find_from_is(s: Seq<char>, p: Seq<char>, from: int, k: int)
    requires
        0 <= from <= k,
        occurs_at(s, p, k),
        forall|j: int| from <= j < k ==> !#[trigger] occurs_at(s, p, j),
    ensures
        find_from(s, p, from) == Some(k),
{
    lemma_find_from(s, p, from);
}

/// The characters of a string, one by one.
pub fn chars_of(s: &str) -> (r: Vec<char>)
    ensures
        r@ == s@,
{
    let mut r: Vec<char> = Vec::new();
    for c in it: s.chars()
        invariant
            it.seq() == s@,
            r@ == s@.take(it.index()),
    {
        r.push(c);
    }
    r
}

/// The string made of the given characters.
pub fn string_of(s: &[char]) -> (r: String)
    ensures
        r@ == s@,
{
    let mut r = String::new();
    for i in 0..s.len()
        invariant
            r@ == s@.take(i as int),
    {
        r.push(s[i]);
    }
    r
}

/// Whether two strings are the same.
pub fn same(a: &str, b: &str) -> (r: bool)
    ensures
        r == (a@ == b@),
{
    let x = chars_of(a);
    let y = chars_of(b);
    if x.len() != y.len() {
        return false;
    }
    for i in 0..x.len()
        invariant
            x@.len() == y@.len(),
            x@ == a@,
            y@ == b@,
            forall|j: int| 0 <= j < i ==> x@[j] == y@[j],
    {
        if x[i] != y[i] {
            return false;
        }
    }
    assert(x@ =~= y@);
    true
}

/// Whether the pattern `p` stands in `s` at position `i`.
pub fn matches_at(s: &[char], p: &[char], i: usize) -> (r: bool)
    ensures
        r == occurs_at(s@, p@, i as int),
{
    if p.len() > s.len() || i > s.len() - p.len() {
        return false;
    }
    for j in 0..p.len()
        invariant
            i + p@.len() <= s@.len() <= usize::MAX,
            forall|k: int| 0 <= k < j ==> s@[i + k] == p@[k],
    {
        if s[i + j] != p[j] {
            assert(s@.subrange(i as int, i + p@.len())[j as int] != p@[j as int]);
            return false;
        }
    }
    assert(s@.subrange(i as int, i + p@.len()) =~= p@);
    true
}

/// Whether the pattern `p` begins `s`.
pub fn begins_with(s: &[char], p: &[char]) -> (r: bool)
    ensures
        r == starts_with(s@, p@),
{
    matches_at(s, p, 0)
}

/// Whether the pattern `p` ends `s`.
pub fn finishes_with(s: &[char], p: &[char]) -> (r: bool)
    ensures
        r == ends_with(s@, p@),
{
    p.len() <= s.len() && matches_at(s, p, s.len() - p.len())
}

/// The first position at which `p` stands in `s`.
pub fn position_of(s: &[char], p: &[char]) -> (r: Option<usize>)
    ensures
        r is Some <==> contains(s@, p@),
        r is Some <==> find(s@, p@) is Some,
        r matches Some(k) ==> find(s@, p@) == Some(k as int),
{
    proof {
        lemma_find_from(s@, p@, 0);
    }
    if p.len() > s.len() {
        return None;
    }
    let last: usize = s.len() - p.len();
    let mut i: usize = 0;
    loop
        invariant
            i <= last,
            last + p@.len() == s@.len(),
            forall|j: int| 0 <= j < i ==> !#[trigger] occurs_at(s@, p@, j),
        decreases last - i,
    {
        if matches_at(s, p, i) {
            proof {
                lemma_find_from_is(s@, p@, 0, i as int);
            }
            return Some(i);
        }
        if i == last {
            proof {
                lemma_find_from(s@, p@, 0);
            }
            return None;
        }
        i = i + 1;
    }
}

/// Whether `c` is white space.
pub fn white_space(c: char) -> (r: bool)
    ensures
        r == is_white_space(c),
{
    let u: u32 = c as u32;
    (0x9 <= u && u <= 0xD) || u == 0x20 || u == 0x85 || u == 0xA0 || u == 0x1680 || (0x2000 <= u
        && u <= 0x200A) || u == 0x2028 || u == 0x2029 || u == 0x202F || u == 0x205F || u == 0x3000
}

/// Whether `s` holds nothing but white space.
pub fn blank(s: &str) -> (r: bool)
    ensures
        r == is_blank(s@),
{
    let cs = chars_of(s);
    for i in 0..cs.len()
        invariant
            cs@ == s@,
            forall|j: int| 0 <= j < i ==> is_white_space(#[trigger] s@[j]),
    {
        if !white_space(cs[i]) {
            assert(!is_white_space(s@[i as int]));
            return false;
        }
    }
    true
}

/// `s` without the white space that it begins with.
pub fn trimmed_start(s: &[char]) -> (r: &[char])
    ensures
        r@ == trim_start(s@),
{
    let mut i: usize = 0;
    assert(s@.skip(0) =~= s@);
    while i < s.len() && white_space(s[i])
        invariant
            i <= s@.len(),
            trim_start(s@) == trim_start(s@.skip(i as int)),
        decreases s@.len() - i,
    {
        assert(s@.skip(i as int).drop_first() =~= s@.skip(i + 1));
        i = i + 1;
    }
    assert(s@.skip(i as int) =~= s@.subrange(i as int, s@.len() as int));
    slice_subrange(s, i, s.len())
}

/// `s` without the white space that it ends with.
pub fn trimmed_end(s: &[char]) -> (r: &[char])
    ensures
        r@ == trim_end(s@),
{
    let mut n: usize = s.len();
    assert(s@.take(n as int) =~= s@);
    while n > 0 && white_space(s[n - 1])
        invariant
            n <= s@.len(),
            trim_end(s@) == trim_end(s@.take(n as int)),
        decreases n,
    {
        assert(s@.take(n as int).drop_last() =~= s@.take(n - 1));
        n = n - 1;
    }
    assert(s@.take(n as int) =~= s@.subrange(0, n as int));
    slice_subrange(s, 0, n)
}

/// `s` without the white space at either end.
pub fn trimmed(s: &[char]) -> (r: &[char])
    ensures
        r@ == trim(s@),
{
    trimmed_end(trimmed_start(s))
}

/// A single character stands exactly where it is an element.
pub proof fn lemma_occurs_char(s: Seq<char>, c: char, i: int)
    ensures
        occurs_at(s, seq![c], i) <==> 0 <= i < s.len() && s[i] == c,
{
    if 0 <= i < s.len() {
        assert(s.subrange(i, i + 1) =~= seq![s[i]]);
        assert(seq![s[i]][0] == s[i] && seq![c][0] == c);
    }
}

/// The text of an optional string.
pub open spec fn opt_view(s: Option<String>) -> Option<Seq<char>> {
    match s {
        Some(s) => Some(s@),
        None => None,
    }
}

/// The texts of some strings.
pub open spec fn string_views(v: Seq<String>) -> Seq<Seq<char>> {
    v.map_values(|x: String| x@)
}

/// The views of a sequence of slices.
pub open spec fn slice_views(v: Seq<&[char]>) -> Seq<Seq<char>> {
    v.map_values(|x: &[char]| x@)
}

/// The lines of `s`.
pub fn lines_of<'a>(s: &'a [char]) -> (r: Vec<&'a [char]>)
    ensures
        slice_views(r@) == lines(s@),
{
    let mut r: Vec<&'a [char]> = Vec::new();
    let mut start: usize = 0;
    let mut i: usize = 0;
    assert(s@.skip(0) =~= s@);
    assert(slice_views(r@) + lines(s@) =~= lines(s@));
    while i < s.len()
        invariant
            start <= i <= s@.len(),
            slice_views(r@) + lines(s@.skip(start as int)) == lines(s@),
            forall|j: int| start <= j < i ==> s@[j] != '\n',
        decreases s@.len() - i,
    {
        if s[i] == '\n' {
            let ghost rest = s@.skip(start as int);
            let ghost before = slice_views(r@);
            proof {
                assert forall|j: int| 0 <= j < i - start implies !#[trigger] occurs_at(
                    rest,
                    seq!['\n'],
                    j,
                ) by {
                    lemma_occurs_char(rest, '\n', j);
                }
                lemma_occurs_char(rest, '\n', i - start);
                lemma_find_from_is(rest, seq!['\n'], 0, i - start);
                assert(rest.take(i - start) =~= s@.subrange(start as int, i as int));
                assert(rest.skip(i - start + 1) =~= s@.skip(i + 1));
            }
            if i > start && s[i - 1] == '\r' {
                assert(s@.subrange(start as int, i as int).drop_last() =~= s@.subrange(
                    start as int,
                    i - 1,
                ));
                r.push(slice_subrange(s, start, i - 1));
            } else {
                r.push(slice_subrange(s, start, i));
            }
            assert(slice_views(r@) =~= before + seq![
                strip_carriage_return(s@.subrange(start as int, i as int)),
            ]);
            start = i + 1;
            assert(slice_views(r@) + lines(s@.skip(start as int)) =~= before + lines(rest));
        }
        i = i + 1;
    }
    if start < s.len() {
        let ghost rest = s@.skip(start as int);
        let ghost before = slice_views(r@);
        proof {
            lemma_find_from(rest, seq!['\n'], 0);
            if let Some(k) = find(rest, seq!['\n']) {
                lemma_occurs_char(rest, '\n', k);
            }
            assert(rest =~= s@.subrange(start as int, s@.len() as int));
        }
        r.push(slice_subrange(s, start, s.len()));
        assert(slice_views(r@) =~= before + seq![rest]);
    } else {
        assert(s@.skip(start as int) =~= seq![]);
        assert(slice_views(r@) + lines(s@.skip(start as int)) =~= slice_views(r@));
    }
    r
}

/// The number of bytes that one character takes in UTF-8.
pub fn char_width(c: char) -> (r: usize)
    ensures
        r == encode_scalar(c as u32).len(),
        1 <= r <= 4,
{
    let u: u32 = c as u32;
    if u <= 0x7F {
        1
    } else if u <= 0x7FF {
        2
    } else if u <= 0xFFFF {
        3
    } else {
        4
    }
}

/// The longest prefix of `s` that takes at most `limit` bytes in UTF-8.
pub fn clipped(s: &[char], limit: usize) -> (r: &[char])
    ensures
        r@ == clip(s@, limit as nat),
{
    let mut k: usize = 0;
    let mut left: usize = limit;
    assert(s@.skip(0) =~= s@);
    assert(s@.take(0) + clip(s@, limit as nat) =~= clip(s@, limit as nat));
    while k < s.len() && char_width(s[k]) <= left
        invariant
            k <= s@.len(),
            clip(s@, limit as nat) == s@.take(k as int) + clip(s@.skip(k as int), left as nat),
        decreases s@.len() - k,
    {
        let w: usize = char_width(s[k]);
        proof {
            let rest = s@.skip(k as int);
            assert(rest.drop_first() =~= s@.skip(k + 1));
            assert(s@.take(k + 1) =~= s@.take(k as int) + seq![rest[0]]);
            assert(s@.take(k as int) + (seq![rest[0]] + clip(s@.skip(k + 1), (left - w) as nat))
                =~= s@.take(k + 1) + clip(s@.skip(k + 1), (left - w) as nat));
        }
        left = left - w;
        k = k + 1;
    }
    assert(clip(s@.skip(k as int), left as nat) =~= seq![]);
    assert(s@.take(k as int) + seq![] =~= s@.subrange(0, k as int));
    slice_subrange(s, 0, k)
}

/// What `clip` leaves is a prefix, fits the limit, and one character more
/// would not fit.
pub proof fn lemma_clip(s: Seq<char>, limit: nat)
    ensures
        clip(s, limit).len() <= s.len(),
        clip(s, limit) == s.take(clip(s, limit).len() as int),
        byte_len(clip(s, limit)) <= limit,
        clip(s, limit).len() < s.len() ==> byte_len(s.take(clip(s, limit).len() as int + 1))
            > limit,
    decreases s.len(),
{
    let c = clip(s, limit);
    if s.len() == 0 {
        assert(c =~= s.take(0));
    } else if encode_scalar(s[0] as u32).len() > limit {
        assert(c =~= s.take(0));
        let one = s.take(1);
        assert(encode_utf8(one.drop_first()).len() == 0);
        assert(encode_utf8(one) =~= encode_scalar(s[0] as u32) + encode_utf8(one.drop_first()));
    } else {
        let left = (limit - encode_scalar(s[0] as u32).len()) as nat;
        let rest = s.drop_first();
        lemma_clip(rest, left);
        let d = clip(rest, left);
        assert(c.drop_first() =~= d);
        assert(c =~= s.take(c.len() as int)) by {
            assert forall|i: int| 0 <= i < c.len() implies c[i] == s[i] by {
                if i > 0 {
                    assert(c[i] == d[i - 1]);
                    assert(d[i - 1] == rest.take(d.len() as int)[i - 1]);
                }
            }
        }
        if c.len() < s.len() {
            let more = s.take(c.len() as int + 1);
            assert(more.drop_first() =~= rest.take(d.len() as int + 1));
        }
    }
}

/// `s` with every occurrence of `p` replaced by `w`.
pub fn replaced(s: &[char], p: &[char], w: &str) -> (r: String)
    requires
        p@.len() > 0,
    ensures
        r@ == replace_all(s@, p@, w@),
{
    let mut r = String::new();
    let mut rest: &[char] = s;
    assert(r@ + replace_all(s@, p@, w@) =~= replace_all(s@, p@, w@));
    loop
        invariant
            p@.len() > 0,
            r@ + replace_all(rest@, p@, w@) == replace_all(s@, p@, w@),
        decreases rest@.len(),
    {
        match position_of(rest, p) {
            Some(k) => {
                proof {
                    lemma_find_from(rest@, p@, 0);
                }
                let ghost before = r@;
                let head = string_of(slice_subrange(rest, 0, k));
                r.append(head.as_str());
                r.append(w);
                assert(rest@.take(k as int) =~= rest@.subrange(0, k as int));
                assert(rest@.skip(k + p@.len()) =~= rest@.subrange(
                    k + p@.len(),
                    rest@.len() as int,
                ));
                assert(before + (rest@.take(k as int) + w@ + replace_all(
                    rest@.skip(k + p@.len()),
                    p@,
                    w@,
                )) =~= r@ + replace_all(rest@.skip(k + p@.len()), p@, w@));
                let len: usize = rest.len();
                rest = slice_subrange(rest, k + p.len(), len);
            },
            None => {
                let tail = string_of(rest);
                r.append(tail.as_str());
                return r;
            },
        }
    }
}

/// The character of the decimal digit `d`.
fn digit_char(d: u8) -> (r: char)
    requires
        d < 10,
    ensures
        r == digit(d as nat),
{
    (48 + d) as char
}

/// Appends `n` in decimal.
pub fn push_decimal(s: &mut String, n: u64)
    ensures
        final(s)@ == old(s)@ + decimal(n as nat),
    decreases n,
{
    if n >= 10 {
        push_decimal(s, n / 10);
    }
    s.push(digit_char((n % 10) as u8));
    assert(s@ =~= old(s)@ + decimal(n as nat));
}

/// `n` in decimal.
pub fn decimal_of(n: u64) -> (r: String)
    ensures
        r@ == decimal(n as nat),
{
    let mut r = String::new();
    push_decimal(&mut r, n);
    assert(Seq::<char>::empty() + decimal(n as nat) =~= decimal(n as nat));
    r
}

/// The unsigned 64-bit number that `s` writes in decimal, if it is one.
pub fn u64_of(s: &str) -> (r: Option<u64>)
    ensures
        r == parse_u64(s@),
{
    let cs = chars_of(s);
    let mut i: usize = 0;
    if cs.len() > 0 && cs[0] == '+' {
        i = 1;
    }
    let start: usize = i;
    let ghost d = strip_plus(s@);
    assert(d =~= s@.skip(start as int));
    if i == cs.len() {
        return None;
    }
    let mut n: u64 = 0;
    assert(d.take(0) =~= seq![]);
    while i < cs.len()
        invariant
            start <= i <= cs@.len(),
            cs@ == s@,
            d == strip_plus(s@),
            d == s@.skip(start as int),
            n == number(d.take(i - start)),
            forall|j: int| 0 <= j < i - start ==> is_digit(#[trigger] d[j]),
        decreases cs@.len() - i,
    {
        let c: char = cs[i];
        assert(d[i - start] == c);
        if !('0' <= c && c <= '9') {
            return None;
        }
        let v: u64 = (c as u32 - 48) as u64;
        let ghost k = i - start;
        assert(d.take(k + 1).drop_last() =~= d.take(k));
        assert(number(d.take(k + 1)) == n * 10 + v);
        if n > (u64::MAX - v) / 10 {
            proof {
                lemma_number_grows(d, k + 1, d.len() as int);
                assert(d.take(d.len() as int) =~= d);
            }
            return None;
        }
        n = n * 10 + v;
        i = i + 1;
    }
    assert(d.take(i - start) =~= d);
    Some(n)
}

/// More digits never make a smaller number.
pub proof fn lemma_number_grows(s: Seq<char>, a: int, b: int)
    requires
        0 <= a <= b <= s.len(),
    ensures
        number(s.take(a)) <= number(s.take(b)),
    decreases b - a,
{
    if a < b {
        lemma_number_grows(s, a, b - 1);
        assert(s.take(b).drop_last() =~= s.take(b - 1));
    }
}

/// `c` is not an element of `s`.
pub open spec fn lacks(s: Seq<char>, c: char) -> bool {
    forall|i: int| 0 <= i < s.len() ==> #[trigger] s[i] != c
}

/// What stands in a part stands in the whole.
pub proof fn lemma_contains_part(s: Seq<char>, a: int, b: int, p: Seq<char>)
    requires
        0 <= a <= b <= s.len(),
        contains(s.subrange(a, b), p),
    ensures
        contains(s, p),
{
    let t = s.subrange(a, b);
    let i = choose|i: int| occurs_at(t, p, i);
    assert(s.subrange(a + i, a + i + p.len()) =~= t.subrange(i, i + p.len()));
    assert(occurs_at(s, p, a + i));
}

/// Trimming leaves a part of the text.
pub proof fn lemma_trim_part(s: Seq<char>)
    ensures
        exists|a: int, b: int| 0 <= a <= b <= s.len() && trim(s) == #[trigger] s.subrange(a, b),
{
    lemma_trim_start_part(s);
    let t = trim_start(s);
    let a = s.len() - t.len();
    lemma_trim_end_part(t);
    let n = trim_end(t).len();
    assert(t.take(n as int) =~= s.subrange(a, a + n));
}

/// Trimming in front leaves what stands behind some position.
pub proof fn lemma_trim_start_part(s: Seq<char>)
    ensures
        trim_start(s).len() <= s.len(),
        trim_start(s) == s.skip(s.len() - trim_start(s).len()),
    decreases s.len(),
{
    if s.len() > 0 && is_white_space(s[0]) {
        lemma_trim_start_part(s.drop_first());
        assert(s.drop_first().skip(s.len() - 1 - trim_start(s).len()) =~= s.skip(
            s.len() - trim_start(s).len(),
        ));
    } else {
        assert(s.skip(0) =~= s);
    }
}

/// Trimming at the end leaves what stands before some position.
pub proof fn lemma_trim_end_part(s: Seq<char>)
    ensures
        trim_end(s).len() <= s.len(),
        trim_end(s) == s.take(trim_end(s).len() as int),
    decreases s.len(),
{
    if s.len() > 0 && is_white_space(s.last()) {
        lemma_trim_end_part(s.drop_last());
        assert(s.drop_last().take(trim_end(s).len() as int) =~= s.take(trim_end(s).len() as int));
    } else {
        assert(s.take(s.len() as int) =~= s);
    }
}

/// Trimming keeps a beginning that neither begins nor ends with white space.
pub proof fn lemma_trim_keeps_beginning(s: Seq<char>, p: Seq<char>)
    requires
        starts_with(s, p),
        p.len() > 0,
        !is_white_space(p[0]),
        !is_white_space(p.last()),
    ensures
        starts_with(trim(s), p),
{
    assert(s[0] == s.subrange(0, p.len() as int)[0]);
    assert(trim_start(s) == s);
    lemma_trim_end_keeps_beginning(s, p);
}

/// Trimming at the end keeps a beginning that does not end with white space.
pub proof fn lemma_trim_end_keeps_beginning(s: Seq<char>, p: Seq<char>)
    requires
        starts_with(s, p),
        p.len() > 0,
        !is_white_space(p.last()),
    ensures
        starts_with(trim_end(s), p),
    decreases s.len(),
{
    if is_white_space(s.last()) {
        if s.len() == p.len() {
            assert(s.subrange(0, p.len() as int) =~= s);
        }
        assert(s.drop_last().subrange(0, p.len() as int) =~= s.subrange(0, p.len() as int));
        lemma_trim_end_keeps_beginning(s.drop_last(), p);
    }
}

/// Clipping keeps a beginning that fits the limit.
pub proof fn lemma_clip_keeps_beginning(s: Seq<char>, p: Seq<char>, limit: nat)
    requires
        starts_with(s, p),
        byte_len(p) <= limit,
    ensures
        starts_with(clip(s, limit), p),
    decreases p.len(),
{
    let c = clip(s, limit);
    if p.len() == 0 {
        assert(c.subrange(0, 0) =~= p);
    } else {
        assert(s[0] == s.subrange(0, p.len() as int)[0]);
        let left = (limit - encode_scalar(s[0] as u32).len()) as nat;
        let rest = s.drop_first();
        assert(rest.subrange(0, p.len() - 1) =~= s.subrange(0, p.len() as int).drop_first());
        assert(byte_len(p) == encode_scalar(p[0] as u32).len() + byte_len(p.drop_first()));
        lemma_clip_keeps_beginning(rest, p.drop_first(), left);
        let d = clip(rest, left);
        assert(c =~= seq![s[0]] + d);
        assert(c.subrange(0, p.len() as int) =~= seq![s[0]] + d.subrange(0, p.len() - 1));
        assert(seq![s[0]] + p.drop_first() =~= p);
    }
}

/// Where the first line ends: at the first line feed, or not at all.
pub proof fn lemma_first_line_feed(s: Seq<char>)
    ensures
        find(s, seq!['\n']) matches Some(k) ==> 0 <= k < s.len() && s[k] == '\n' && lacks(
            s.take(k),
            '\n',
        ),
        find(s, seq!['\n']) is None ==> lacks(s, '\n'),
{
    lemma_find_from(s, seq!['\n'], 0);
    assert forall|i: int| 0 <= i < s.len() implies (#[trigger] s[i] == '\n') == occurs_at(
        s,
        seq!['\n'],
        i,
    ) by {
        lemma_occurs_char(s, '\n', i);
    }
    if let Some(k) = find(s, seq!['\n']) {
        lemma_occurs_char(s, '\n', k);
        assert forall|i: int| 0 <= i < k implies #[trigger] s.take(k)[i] != '\n' by {
            assert(s.take(k)[i] == s[i]);
        }
    }
}

/// A line holds no line feed.
pub proof fn lemma_line_lacks_line_feed(s: Seq<char>, i: int)
    requires
        0 <= i < lines(s).len(),
    ensures
        lacks(lines(s)[i], '\n'),
    decreases s.len(),
{
    lemma_first_line_feed(s);
    if let Some(k) = find(s, seq!['\n']) {
        if i > 0 {
            lemma_line_lacks_line_feed(s.skip(k + 1), i - 1);
        }
    }
}

/// A pattern without line ends stands in a text exactly if it stands in one
/// of its lines.
pub proof fn lemma_contains_in_lines(s: Seq<char>, p: Seq<char>)
    requires
        p.len() > 0,
        lacks(p, '\n'),
        lacks(p, '\r'),
    ensures
        contains(s, p) <==> exists|i: int|
            0 <= i < lines(s).len() && contains(#[trigger] lines(s)[i], p),
    decreases s.len(),
{
    lemma_first_line_feed(s);
    if s.len() == 0 {
        assert forall|i: int| !occurs_at(s, p, i) by {}
    } else {
        match find(s, seq!['\n']) {
            None => {
                assert(lines(s)[0] == s);
            },
            Some(k) => {
                let first = strip_carriage_return(s.take(k));
                let rest = s.skip(k + 1);
                lemma_contains_in_lines(rest, p);
                assert(lines(s) == seq![first] + lines(rest));
                assert(lines(s)[0] == first);
                if contains(s, p) {
                    let j = choose|j: int| occurs_at(s, p, j);
                    let t = s.subrange(j, j + p.len());
                    if j + p.len() <= k {
                        if j + p.len() == k {
                            assert(t.last() == s[k - 1]);
                        }
                        assert(first.subrange(j, j + p.len()) =~= t);
                        assert(occurs_at(first, p, j));
                    } else if j <= k {
                        assert(t[k - j] == s[k]);
                    } else {
                        assert(rest.subrange(j - k - 1, j - k - 1 + p.len()) =~= t);
                        assert(occurs_at(rest, p, j - k - 1));
                        let i = choose|i: int|
                            0 <= i < lines(rest).len() && contains(#[trigger] lines(rest)[i], p);
                        assert(lines(s)[i + 1] == lines(rest)[i]);
                    }
                }
                if exists|i: int| 0 <= i < lines(s).len() && contains(#[trigger] lines(s)[i], p) {
                    let i = choose|i: int|
                        0 <= i < lines(s).len() && contains(#[trigger] lines(s)[i], p);
                    if i == 0 {
                        assert(first =~= s.subrange(0, first.len() as int));
                        lemma_contains_part(s, 0, first.len() as int, p);
                    } else {
                        assert(lines(s)[i] == lines(rest)[i - 1]);
                        assert(rest =~= s.subrange(k + 1, s.len() as int));
                        lemma_contains_part(s, k + 1, s.len() as int, p);
                    }
                }
            },
        }
    }
}

/// The lines of two texts, the first of which ends with a line feed, are
/// those of the one behind those of the other.
pub proof fn lemma_lines_concat(a: Seq<char>, b: Seq<char>)
    requires
        a.len() > 0,
        a.last() == '\n',
    ensures
        lines(a + b) == lines(a) + lines(b),
    decreases a.len(),
{
    let s = a + b;
    lemma_first_line_feed(a);
    assert(a[a.len() - 1] == '\n');
    let k = find(a, seq!['\n'])->0;
    assert forall|j: int| 0 <= j < k implies !#[trigger] occurs_at(s, seq!['\n'], j) by {
        lemma_occurs_char(s, '\n', j);
        assert(s[j] == a.take(k)[j]);
    }
    lemma_occurs_char(s, '\n', k);
    lemma_find_from_is(s, seq!['\n'], 0, k);
    assert(s.take(k) =~= a.take(k));
    let rest = a.skip(k + 1);
    assert(s.skip(k + 1) =~= rest + b);
    let first = strip_carriage_return(a.take(k));
    if rest.len() == 0 {
        assert(rest + b =~= b);
        assert(lines(rest).len() == 0);
        assert(lines(a) =~= seq![first]);
    } else {
        assert(rest.last() == a.last());
        lemma_lines_concat(rest, b);
        assert(seq![first] + (lines(rest) + lines(b)) =~= (seq![first] + lines(rest)) + lines(b));
    }
}

/// A number in decimal is made of digits, at least one.
pub proof fn lemma_decimal_digits(n: nat)
    ensures
        decimal(n).len() > 0,
        forall|i: int| 0 <= i < decimal(n).len() ==> is_digit(#[trigger] decimal(n)[i]),
    decreases n,
{
    if n >= 10 {
        lemma_decimal_digits(n / 10);
    }
}

/// Reading a number in decimal gives the number back.
pub proof fn lemma_decimal_number(n: nat)
    ensures
        number(decimal(n)) == n,
    decreases n,
{
    if n >= 10 {
        lemma_decimal_number(n / 10);
        assert(decimal(n).drop_last() =~= decimal(n / 10));
    } else {
        assert(decimal(n).drop_last() =~= seq![]);
        assert(number(decimal(n).drop_last()) == 0);
    }
}

} // verus!
