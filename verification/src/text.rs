//! Character-level text primitives shared by the rest of the library.
use vstd::prelude::*;
use vstd::utf8::*;

verus! {

/// The Unicode `White_Space` property (PropList.txt), which `char::is_whitespace` and
/// `str::trim` go by: U+0009..U+000D, U+0020, U+0085, U+00A0, U+1680, U+2000..U+200A,
/// U+2028, U+2029, U+202F, U+205F and U+3000.
pub open spec fn unicode_white_space(c: char) -> bool {
    let v = c as u32;
    ||| 0x09 <= v && v <= 0x0D
    ||| v == 0x20
    ||| v == 0x85
    ||| v == 0xA0
    ||| v == 0x1680
    ||| 0x2000 <= v && v <= 0x200A
    ||| v == 0x2028
    ||| v == 0x2029
    ||| v == 0x202F
    ||| v == 0x205F
    ||| v == 0x3000
}

/// Whether `c` has the Unicode `White_Space` property.
pub fn char_is_whitespace(c: char) -> (b: bool)
    ensures
        b == unicode_white_space(c),
{
    let v = c as u32;
    (0x09 <= v && v <= 0x0D) || v == 0x20 || v == 0x85 || v == 0xA0 || v == 0x1680 || (0x2000
        <= v && v <= 0x200A) || v == 0x2028 || v == 0x2029 || v == 0x202F || v == 0x205F || v
        == 0x3000
}

/// A text made of ASCII characters only.
pub open spec fn is_ascii_text(s: Seq<char>) -> bool {
    forall|i: int| 0 <= i < s.len() ==> (#[trigger] s[i] as u32) < 0x80
}

/// The ASCII lowercase form of one character: 'A'..'Z' become 'a'..'z', others stay.
pub open spec fn ascii_lower_char(c: char) -> char {
    if 'A' <= c && c <= 'Z' {
        ((c as u32) + 32) as char
    } else {
        c
    }
}

/// The lowercase form, under the Unicode rules of `str::to_lowercase`, of a text that
/// holds a character outside ASCII.
pub uninterp spec fn unicode_lowercase(s: Seq<char>) -> Seq<char>;

/// The lowercase form of a text as `str::to_lowercase` gives it: for ASCII text each of
/// 'A'..'Z' becomes its lowercase letter and every other character stays; any other text
/// goes by Unicode's Lowercase mapping (`unicode_lowercase`).
pub open spec fn lowercase_spec(s: Seq<char>) -> Seq<char> {
    if is_ascii_text(s) {
        s.map_values(|c: char| ascii_lower_char(c))
    } else {
        unicode_lowercase(s)
    }
}

/// Calls `str::to_lowercase`. The result is the lowercase form of `s` under Unicode's
/// Lowercase mapping: on ASCII text that mapping turns 'A'..'Z' into 'a'..'z' and keeps
/// every other character; on any other text it is named `unicode_lowercase` and not
/// spelled out.
#[verifier::external_body]
pub(crate) fn to_lowercase(s: &str) -> (r: String)
    ensures
        is_ascii_text(s@) ==> r@ == s@.map_values(|c: char| ascii_lower_char(c)),
        !is_ascii_text(s@) ==> r@ == unicode_lowercase(s@),
{
    s.to_lowercase()
}

/// Calls `String::push`: appends one character.
#[verifier::external_body]
pub(crate) fn push_char(s: &mut String, c: char)
    ensures
        final(s)@ == old(s)@.push(c),
{
    s.push(c);
}

/// The characters of `s`, in order.
pub fn chars_of(s: &str) -> (v: Vec<char>)
    ensures
        v@ == s@,
{
    let mut v: Vec<char> = Vec::new();
    for c in it: s.chars()
        invariant
            it.seq() == s@,
            v@ == it.seq().take(it.index() as int),
    {
        v.push(c);
    }
    v
}


/// The text made of `chars[lo..hi]`.
pub fn string_from_range(chars: &Vec<char>, lo: usize, hi: usize) -> (s: String)
    requires
        lo <= hi <= chars.len(),
    ensures
        s@ == chars@.subrange(lo as int, hi as int),
{
    let mut s = String::new();
    let mut i = lo;
    while i < hi
        invariant
            lo <= i <= hi <= chars.len(),
            s@ == chars@.subrange(lo as int, i as int),
        decreases hi - i,
    {
        push_char(&mut s, chars[i]);
        assert(chars@.subrange(lo as int, i + 1) == chars@.subrange(lo as int, i as int).push(chars@[i as int]));
        i = i + 1;
    }
    s
}

/// `s` with leading whitespace removed.
pub open spec fn trim_start_spec(s: Seq<char>) -> Seq<char>
    decreases s.len(),
{
    if s.len() > 0 && unicode_white_space(s[0]) {
        trim_start_spec(s.drop_first())
    } else {
        s
    }
}

/// `s` with trailing whitespace removed.
pub open spec fn trim_end_spec(s: Seq<char>) -> Seq<char>
    decreases s.len(),
{
    if s.len() > 0 && unicode_white_space(s.last()) {
        trim_end_spec(s.drop_last())
    } else {
        s
    }
}

/// `s` with leading and trailing whitespace removed, as `str::trim` does.
pub open spec fn trim_spec(s: Seq<char>) -> Seq<char> {
    trim_end_spec(trim_start_spec(s))
}

proof fn lemma_trim_start_skip(s: Seq<char>, i: int)
    requires
        0 <= i <= s.len(),
        forall|k: int| 0 <= k < i ==> unicode_white_space(#[trigger] s[k]),
    ensures
        trim_start_spec(s) == trim_start_spec(s.skip(i)),
    decreases i,
{
    if i > 0 {
        assert(s.drop_first().skip(i - 1) == s.skip(i));
        lemma_trim_start_skip(s.drop_first(), i - 1);
    } else {
        assert(s.skip(0) == s);
    }
}

proof fn lemma_trim_end_take(s: Seq<char>, j: int)
    requires
        0 <= j <= s.len(),
        forall|k: int| j <= k < s.len() ==> unicode_white_space(#[trigger] s[k]),
    ensures
        trim_end_spec(s) == trim_end_spec(s.take(j)),
    decreases s.len() - j,
{
    if j < s.len() {
        assert(s.drop_last().take(j) == s.take(j));
        lemma_trim_end_take(s.drop_last(), j);
    } else {
        assert(s.take(j) == s);
    }
}

/// Positions `(lo, hi)` such that `chars[lo..hi]` is `chars` with leading and
/// trailing whitespace removed.
pub fn trim_bounds(chars: &Vec<char>) -> (r: (usize, usize))
    ensures
        r.0 <= r.1 <= chars.len(),
        chars@.subrange(r.0 as int, r.1 as int) == trim_spec(chars@),
{
    let n = chars.len();
    let mut lo: usize = 0;
    while lo < n && char_is_whitespace(chars[lo])
        invariant
            lo <= n == chars.len(),
            forall|k: int| 0 <= k < lo ==> unicode_white_space(#[trigger] chars@[k]),
        decreases n - lo,
    {
        lo = lo + 1;
    }
    proof {
        lemma_trim_start_skip(chars@, lo as int);
        let t = chars@.skip(lo as int);
        if t.len() > 0 {
            assert(t[0] == chars@[lo as int]);
        }
        assert(trim_start_spec(t) == t);
    }
    let mut hi: usize = n;
    while hi > lo && char_is_whitespace(chars[hi - 1])
        invariant
            lo <= hi <= n == chars.len(),
            forall|k: int| hi <= k < n ==> unicode_white_space(#[trigger] chars@[k]),
        decreases hi,
    {
        hi = hi - 1;
    }
    proof {
        let t = chars@.skip(lo as int);
        assert forall|k: int| hi - lo <= k < t.len() implies unicode_white_space(#[trigger] t[k]) by {
            assert(t[k] == chars@[lo + k]);
        }
        lemma_trim_end_take(t, hi - lo);
        let u = t.take(hi - lo);
        assert(u == chars@.subrange(lo as int, hi as int));
        if u.len() > 0 {
            assert(u.last() == chars@[hi - 1]);
        }
    }
    (lo, hi)
}

/// The text of `s` without leading and trailing whitespace.
pub fn trim_text(s: &str) -> (t: String)
    ensures
        t@ == trim_spec(s@),
{
    let chars = chars_of(s);
    let (lo, hi) = trim_bounds(&chars);
    string_from_range(&chars, lo, hi)
}


/// Number of bytes of the UTF-8 encoding of `s` (what `str::len` counts).
pub open spec fn utf8_len(s: Seq<char>) -> nat {
    encode_utf8(s).len()
}

/// Number of bytes of the UTF-8 encoding of the single character `c`.
pub open spec fn char_utf8_width(c: char) -> nat {
    if (c as u32) <= 0x7F {
        1
    } else if (c as u32) <= 0x7FF {
        2
    } else if (c as u32) <= 0xFFFF {
        3
    } else {
        4
    }
}

/// The encoding of a concatenation is the concatenation of the encodings.
pub proof fn lemma_encode_utf8_concat(a: Seq<char>, b: Seq<char>)
    ensures
        encode_utf8(a + b) == encode_utf8(a) + encode_utf8(b),
    decreases a.len(),
{
    if a.len() == 0 {
        assert(a + b == b);
        assert(encode_utf8(a) + encode_utf8(b) == encode_utf8(b));
    } else {
        assert((a + b)[0] == a[0]);
        assert((a + b).drop_first() == a.drop_first() + b);
        lemma_encode_utf8_concat(a.drop_first(), b);
        assert(encode_utf8(a + b) == encode_scalar(a[0] as u32) + encode_utf8(a.drop_first() + b));
        assert(encode_scalar(a[0] as u32) + (encode_utf8(a.drop_first()) + encode_utf8(b))
            == (encode_scalar(a[0] as u32) + encode_utf8(a.drop_first())) + encode_utf8(b));
    }
}

/// The encoding of one character has `char_utf8_width` bytes.
pub proof fn lemma_encode_width(c: char)
    ensures
        encode_utf8(seq![c]).len() == char_utf8_width(c),
{
    broadcast use vstd::utf8::char_is_scalar;
    assert(is_scalar(c as u32));
    assert(seq![c].drop_first() == Seq::<char>::empty());
    assert(encode_utf8(seq![c]) == encode_scalar(c as u32) + encode_utf8(Seq::<char>::empty()));
}

/// Appending a character adds its width to the encoded length.
pub proof fn lemma_utf8_len_push(s: Seq<char>, c: char)
    ensures
        utf8_len(s.push(c)) == utf8_len(s) + char_utf8_width(c),
{
    assert(s.push(c) == s + seq![c]);
    lemma_encode_utf8_concat(s, seq![c]);
    lemma_encode_width(c);
}

/// A contiguous part of `s` never encodes to more bytes than `s` itself.
pub proof fn lemma_utf8_len_subrange(s: Seq<char>, lo: int, hi: int)
    requires
        0 <= lo <= hi <= s.len(),
    ensures
        utf8_len(s.subrange(lo, hi)) <= utf8_len(s),
{
    assert(s == s.subrange(0, lo) + s.subrange(lo, hi) + s.subrange(hi, s.len() as int));
    lemma_encode_utf8_concat(s.subrange(0, lo) + s.subrange(lo, hi), s.subrange(hi, s.len() as int));
    lemma_encode_utf8_concat(s.subrange(0, lo), s.subrange(lo, hi));
}

/// Number of UTF-8 bytes of the single character `c`.
pub fn utf8_width(c: char) -> (w: usize)
    ensures
        w == char_utf8_width(c),
{
    let v = c as u32;
    if v <= 0x7F {
        1
    } else if v <= 0x7FF {
        2
    } else if v <= 0xFFFF {
        3
    } else {
        4
    }
}

/// Number of UTF-8 bytes of `chars[lo..hi]`.
pub fn utf8_len_of_range(chars: &Vec<char>, lo: usize, hi: usize) -> (n: usize)
    requires
        lo <= hi <= chars.len(),
        utf8_len(chars@.subrange(lo as int, hi as int)) <= usize::MAX,
    ensures
        n == utf8_len(chars@.subrange(lo as int, hi as int)),
{
    let mut n: usize = 0;
    let mut i = lo;
    assert(chars@.subrange(lo as int, lo as int) == Seq::<char>::empty());
    while i < hi
        invariant
            lo <= i <= hi <= chars.len(),
            utf8_len(chars@.subrange(lo as int, hi as int)) <= usize::MAX,
            n == utf8_len(chars@.subrange(lo as int, i as int)),
        decreases hi - i,
    {
        let w = utf8_width(chars[i]);
        proof {
            let whole = chars@.subrange(lo as int, hi as int);
            assert(chars@.subrange(lo as int, i + 1) == chars@.subrange(lo as int, i as int).push(chars@[i as int]));
            lemma_utf8_len_push(chars@.subrange(lo as int, i as int), chars@[i as int]);
            assert(chars@.subrange(lo as int, i + 1) == whole.subrange(0, i + 1 - lo));
            lemma_utf8_len_subrange(whole, 0, i + 1 - lo);
        }
        n = n + w;
        i = i + 1;
    }
    n
}


/// `needle` occurs in `hay` starting at position `i`.
pub open spec fn occurs_at(hay: Seq<char>, needle: Seq<char>, i: int) -> bool {
    0 <= i && i + needle.len() <= hay.len() && hay.subrange(i, i + needle.len()) == needle
}

/// `needle` occurs somewhere in `hay` (as `str::contains` with a string pattern).
pub open spec fn contains_text(hay: Seq<char>, needle: Seq<char>) -> bool {
    exists|i: int| occurs_at(hay, needle, i)
}

/// Whether `needle` occurs in `hay` at position `i`.
pub fn matches_at(hay: &Vec<char>, needle: &Vec<char>, i: usize) -> (b: bool)
    ensures
        b == occurs_at(hay@, needle@, i as int),
{
    if i > hay.len() || needle.len() > hay.len() - i {
        return false;
    }
    let mut k: usize = 0;
    while k < needle.len()
        invariant
            i + needle.len() <= hay.len(),
            k <= needle.len(),
            forall|j: int| 0 <= j < k ==> hay@[i + j] == needle@[j],
        decreases needle.len() - k,
    {
        if hay[i + k] != needle[k] {
            assert(hay@.subrange(i as int, i + needle.len())[k as int] != needle@[k as int]);
            return false;
        }
        k = k + 1;
    }
    assert(hay@.subrange(i as int, i + needle.len()) =~= needle@);
    true
}

/// Whether `needle` occurs anywhere in `hay`.
pub fn contains_chars(hay: &Vec<char>, needle: &Vec<char>) -> (b: bool)
    ensures
        b == contains_text(hay@, needle@),
{
    if needle.len() == 0 {
        assert(hay@.subrange(0, 0) =~= needle@);
        assert(occurs_at(hay@, needle@, 0));
        return true;
    }
    if needle.len() > hay.len() {
        return false;
    }
    let last = hay.len() - needle.len();
    let mut i: usize = 0;
    while i < last + 1
        invariant
            last == hay.len() - needle.len(),
            0 < needle.len() <= hay.len(),
            i <= last + 1,
            forall|j: int| 0 <= j < i ==> !occurs_at(hay@, needle@, j),
        decreases last + 1 - i,
    {
        if matches_at(hay, needle, i) {
            return true;
        }
        i = i + 1;
    }
    false
}

/// Whether the text `needle` occurs in the text `hay`.
pub fn contains_str(hay: &Vec<char>, needle: &str) -> (b: bool)
    ensures
        b == contains_text(hay@, needle@),
{
    let n = chars_of(needle);
    contains_chars(hay, &n)
}

/// Whether `c` occurs in `s`.
pub fn contains_char(s: &Vec<char>, c: char) -> (b: bool)
    ensures
        b == s@.contains(c),
{
    let mut i: usize = 0;
    while i < s.len()
        invariant
            i <= s.len(),
            forall|j: int| 0 <= j < i ==> s@[j] != c,
        decreases s.len() - i,
    {
        if s[i] == c {
            return true;
        }
        i = i + 1;
    }
    false
}

/// Number of occurrences of `c` in `s`.
pub open spec fn count_char(s: Seq<char>, c: char) -> nat
    decreases s.len(),
{
    if s.len() == 0 {
        0
    } else {
        count_char(s.drop_last(), c) + if s.last() == c { 1nat } else { 0nat }
    }
}

/// Number of occurrences of `c` in `s`.
pub fn count_occurrences(s: &Vec<char>, c: char) -> (n: usize)
    ensures
        n == count_char(s@, c),
{
    let mut n: usize = 0;
    let mut i: usize = 0;
    while i < s.len()
        invariant
            i <= s.len(),
            n == count_char(s@.take(i as int), c),
            n <= i,
        decreases s.len() - i,
    {
        assert(s@.take(i + 1).drop_last() == s@.take(i as int));
        if s[i] == c {
            n = n + 1;
        }
        i = i + 1;
    }
    assert(s@.take(s.len() as int) == s@);
    n
}

/// Whether two texts are equal, character by character.
pub fn same_text(a: &str, b: &str) -> (r: bool)
    ensures
        r == (a@ == b@),
{
    let x = chars_of(a);
    let y = chars_of(b);
    if x.len() != y.len() {
        return false;
    }
    let mut i: usize = 0;
    while i < x.len()
        invariant
            x@ == a@,
            y@ == b@,
            x.len() == y.len(),
            i <= x.len(),
            forall|j: int| 0 <= j < i ==> x@[j] == y@[j],
        decreases x.len() - i,
    {
        if x[i] != y[i] {
            assert(x@[i as int] != y@[i as int]);
            return false;
        }
        i = i + 1;
    }
    assert(x@ =~= y@);
    true
}

/// The decimal digit character for `d` (`d < 10`).
pub open spec fn digit_char(d: nat) -> char {
    ((48 + d) as u32) as char
}

/// Decimal notation of `n`, without sign or leading zeros (as `{}` formats an integer).
pub open spec fn decimal_text(n: nat) -> Seq<char>
    decreases n,
{
    if n < 10 {
        seq![digit_char(n)]
    } else {
        decimal_text(n / 10).push(digit_char(n % 10))
    }
}

/// Appends the decimal notation of `n` to `s`.
pub fn push_decimal(s: &mut String, n: usize)
    ensures
        final(s)@ == old(s)@ + decimal_text(n as nat),
    decreases n,
{
    if n >= 10 {
        push_decimal(s, n / 10);
    }
    let d = (n % 10) as u8;
    let c = (48u8 + d) as char;
    push_char(s, c);
}


/// The pieces of `s` between occurrences of `sep`, in order (as `str::split` with a
/// character pattern yields them); there is always at least one piece.
pub open spec fn split_on(s: Seq<char>, sep: char) -> Seq<Seq<char>>
    decreases s.len(),
{
    if s.len() == 0 {
        seq![Seq::<char>::empty()]
    } else if s.last() == sep {
        split_on(s.drop_last(), sep).push(Seq::<char>::empty())
    } else {
        let p = split_on(s.drop_last(), sep);
        p.update(p.len() - 1, p.last().push(s.last()))
    }
}

/// `split_on` never yields an empty list of pieces.
pub proof fn lemma_split_on_nonempty(s: Seq<char>, sep: char)
    ensures
        split_on(s, sep).len() >= 1,
    decreases s.len(),
{
    if s.len() > 0 {
        lemma_split_on_nonempty(s.drop_last(), sep);
    }
}

/// Every piece that `split_on` yields is a contiguous part of its input.
pub proof fn lemma_split_pieces_are_parts(s: Seq<char>, sep: char)
    ensures
        forall|k: int|
            0 <= k < split_on(s, sep).len() ==> exists|lo: int, hi: int|
                0 <= lo <= hi <= s.len() && #[trigger] split_on(s, sep)[k] == s.subrange(lo, hi),
        exists|lo: int| 0 <= lo <= s.len() && split_on(s, sep).last() == s.subrange(lo, s.len() as int),
    decreases s.len(),
{
    lemma_split_on_nonempty(s, sep);
    if s.len() == 0 {
        assert(split_on(s, sep)[0] == s.subrange(0, 0));
    } else {
        let t = s.drop_last();
        lemma_split_pieces_are_parts(t, sep);
        lemma_split_on_nonempty(t, sep);
        let p = split_on(t, sep);
        assert forall|lo: int, hi: int| 0 <= lo <= hi <= t.len() implies #[trigger] t.subrange(lo, hi) == s.subrange(lo, hi) by {
        }
        if s.last() == sep {
            assert(split_on(s, sep).last() == s.subrange(s.len() as int, s.len() as int));
            assert forall|k: int| 0 <= k < split_on(s, sep).len() implies exists|lo: int, hi: int|
                0 <= lo <= hi <= s.len() && #[trigger] split_on(s, sep)[k] == s.subrange(lo, hi) by {
                if k < p.len() {
                    assert(split_on(s, sep)[k] == p[k]);
                    let (lo, hi) = choose|lo: int, hi: int| 0 <= lo <= hi <= t.len() && p[k] == t.subrange(lo, hi);
                    assert(p[k] == s.subrange(lo, hi));
                } else {
                    assert(split_on(s, sep)[k] == s.subrange(s.len() as int, s.len() as int));
                }
            }
        } else {
            let lo0 = choose|lo: int| 0 <= lo <= t.len() && p.last() == t.subrange(lo, t.len() as int);
            assert(p.last().push(s.last()) == s.subrange(lo0, s.len() as int));
            assert(split_on(s, sep).last() == s.subrange(lo0, s.len() as int));
            assert forall|k: int| 0 <= k < split_on(s, sep).len() implies exists|lo: int, hi: int|
                0 <= lo <= hi <= s.len() && #[trigger] split_on(s, sep)[k] == s.subrange(lo, hi) by {
                if k < p.len() - 1 {
                    assert(split_on(s, sep)[k] == p[k]);
                    let (lo, hi) = choose|lo: int, hi: int| 0 <= lo <= hi <= t.len() && p[k] == t.subrange(lo, hi);
                    assert(p[k] == s.subrange(lo, hi));
                } else {
                    assert(split_on(s, sep)[k] == s.subrange(lo0, s.len() as int));
                }
            }
        }
    }
}

/// The last piece of `split_on` is the text after the last `sep` (all of `s` when it
/// has no `sep`).
pub proof fn lemma_split_last_piece(s: Seq<char>, sep: char)
    ensures
        exists|lo: int|
            0 <= lo <= s.len() && split_on(s, sep).last() == s.subrange(lo, s.len() as int) && (
            forall|j: int| lo <= j < s.len() ==> s[j] != sep) && (lo > 0 ==> s[lo - 1] == sep),
    decreases s.len(),
{
    lemma_split_on_nonempty(s, sep);
    if s.len() == 0 {
        assert(split_on(s, sep).last() == s.subrange(0, 0));
    } else {
        let t = s.drop_last();
        lemma_split_last_piece(t, sep);
        lemma_split_on_nonempty(t, sep);
        if s.last() == sep {
            assert(split_on(s, sep).last() == s.subrange(s.len() as int, s.len() as int));
        } else {
            let lo = choose|lo: int|
                0 <= lo <= t.len() && split_on(t, sep).last() == t.subrange(lo, t.len() as int) && (
                forall|j: int| lo <= j < t.len() ==> t[j] != sep) && (lo > 0 ==> t[lo - 1] == sep);
            assert(split_on(s, sep).last() =~= s.subrange(lo, s.len() as int));
            assert forall|j: int| lo <= j < s.len() implies s[j] != sep by {
                if j < t.len() {
                    assert(s[j] == t[j]);
                }
            }
            if lo > 0 {
                assert(s[lo - 1] == t[lo - 1]);
            }
        }
    }
}

/// Splitting a text that ends with `sep` followed by a `sep`-free part `x` gives `x` as
/// its last piece.
pub proof fn lemma_split_last_after_sep(p: Seq<char>, sep: char, x: Seq<char>)
    requires
        !x.contains(sep),
    ensures
        split_on(p + seq![sep] + x, sep).last() == x,
{
    let s = p + seq![sep] + x;
    lemma_split_last_piece(s, sep);
    let lo = choose|lo: int|
        0 <= lo <= s.len() && split_on(s, sep).last() == s.subrange(lo, s.len() as int) && (
        forall|j: int| lo <= j < s.len() ==> s[j] != sep) && (lo > 0 ==> s[lo - 1] == sep);
    let q = p.len() as int;
    assert(s[q] == sep);
    if lo > q + 1 {
        assert(s[lo - 1] == x[lo - 1 - q - 1]);
        assert(x.contains(sep));
    }
    assert(s.subrange(q + 1, s.len() as int) =~= x);
}

/// Splitting a text without `sep` gives that text as its last piece.
pub proof fn lemma_split_last_no_sep(x: Seq<char>, sep: char)
    requires
        !x.contains(sep),
    ensures
        split_on(x, sep).last() == x,
{
    lemma_split_last_piece(x, sep);
    let lo = choose|lo: int|
        0 <= lo <= x.len() && split_on(x, sep).last() == x.subrange(lo, x.len() as int) && (
        forall|j: int| lo <= j < x.len() ==> x[j] != sep) && (lo > 0 ==> x[lo - 1] == sep);
    if lo > 0 {
        assert(x.contains(sep));
    }
    assert(x.subrange(0, x.len() as int) =~= x);
}

/// The texts held by a list of character vectors.
pub open spec fn texts_of(v: Seq<Vec<char>>) -> Seq<Seq<char>> {
    v.map_values(|x: Vec<char>| x@)
}

/// The pieces of `s` between occurrences of `sep`.
pub fn split_chars(s: &Vec<char>, sep: char) -> (pieces: Vec<Vec<char>>)
    ensures
        texts_of(pieces@) == split_on(s@, sep),
{
    let mut done: Vec<Vec<char>> = Vec::new();
    let mut cur: Vec<char> = Vec::new();
    let mut i: usize = 0;
    assert(s@.take(0) =~= Seq::<char>::empty());
    while i < s.len()
        invariant
            i <= s.len(),
            texts_of(done@).push(cur@) == split_on(s@.take(i as int), sep),
        decreases s.len() - i,
    {
        let ghost before = split_on(s@.take(i as int), sep);
        assert(s@.take(i + 1).drop_last() == s@.take(i as int));
        assert(s@.take(i + 1).last() == s@[i as int]);
        proof { lemma_split_on_nonempty(s@.take(i as int), sep); }
        if s[i] == sep {
            let finished = cur;
            done.push(finished);
            cur = Vec::new();
            assert(texts_of(done@) == before);
            assert(texts_of(done@).push(cur@) == split_on(s@.take(i + 1), sep));
        } else {
            cur.push(s[i]);
            assert(texts_of(done@).push(cur@) =~= before.update(before.len() - 1, before.last().push(s@[i as int])));
        }
        i = i + 1;
    }
    done.push(cur);
    assert(s@.take(s.len() as int) == s@);
    assert(texts_of(done@) =~= split_on(s@, sep));
    done
}

/// `parts` joined with `sep` between consecutive parts (as `[String]::join`).
pub open spec fn join_with(parts: Seq<Seq<char>>, sep: Seq<char>) -> Seq<char>
    decreases parts.len(),
{
    if parts.len() == 0 {
        Seq::<char>::empty()
    } else if parts.len() == 1 {
        parts[0]
    } else {
        join_with(parts.drop_last(), sep) + sep + parts.last()
    }
}


/// The texts held by a list of strings.
pub open spec fn string_texts(v: Seq<String>) -> Seq<Seq<char>> {
    v.map_values(|x: String| x@)
}

/// `parts` joined with `sep` between consecutive parts.
pub fn join_texts(parts: &Vec<String>, sep: &str) -> (r: String)
    ensures
        r@ == join_with(string_texts(parts@), sep@),
{
    let mut r = String::new();
    let ghost all = string_texts(parts@);
    let mut i: usize = 0;
    assert(all.take(0) =~= Seq::<Seq<char>>::empty());
    while i < parts.len()
        invariant
            all == string_texts(parts@),
            i <= parts.len(),
            r@ == join_with(all.take(i as int), sep@),
        decreases parts.len() - i,
    {
        assert(all.take(i + 1).drop_last() == all.take(i as int));
        assert(all.take(i + 1).last() == parts@[i as int]@);
        if i > 0 {
            r.append(sep);
        } else {
            assert(all.take(1) =~= seq![all[0]]);
        }
        r.append(parts[i].as_str());
        i = i + 1;
    }
    assert(all.take(parts.len() as int) == all);
    r
}

/// The text of a string literal or slice, as an owned `String`.
pub fn owned_text(s: &str) -> (r: String)
    ensures
        r@ == s@,
{
    let mut r = String::new();
    r.append(s);
    assert(r@ =~= s@);
    r
}

/// Leading and trailing whitespace removal leaves a text that starts and ends
/// with a non-whitespace character (or is empty).
proof fn lemma_trim_start_shape(s: Seq<char>)
    ensures
        trim_start_spec(s).len() == 0 || !unicode_white_space(trim_start_spec(s)[0]),
    decreases s.len(),
{
    if s.len() > 0 && unicode_white_space(s[0]) {
        lemma_trim_start_shape(s.drop_first());
    }
}

proof fn lemma_trim_end_shape(t: Seq<char>)
    ensures
        exists|k: int|
            0 <= k <= t.len() && trim_end_spec(t) == t.take(k) && (k == 0 || !unicode_white_space(
                t[k - 1],
            )) && (t.len() > 0 && !unicode_white_space(t[0]) ==> k >= 1),
    decreases t.len(),
{
    if t.len() > 0 && unicode_white_space(t.last()) {
        let u = t.drop_last();
        lemma_trim_end_shape(u);
        let k = choose|k: int|
            0 <= k <= u.len() && trim_end_spec(u) == u.take(k) && (k == 0 || !unicode_white_space(
                u[k - 1],
            )) && (u.len() > 0 && !unicode_white_space(u[0]) ==> k >= 1);
        assert(u.take(k) == t.take(k));
        if k > 0 {
            assert(u[k - 1] == t[k - 1]);
        }
        if t.len() > 0 && !unicode_white_space(t[0]) {
            assert(u.len() > 0);
            assert(u[0] == t[0]);
        }
    } else {
        assert(t.take(t.len() as int) == t);
    }
}

/// Trimming twice is the same as trimming once.
pub proof fn lemma_trim_idempotent(s: Seq<char>)
    ensures
        trim_spec(trim_spec(s)) == trim_spec(s),
{
    let t = trim_start_spec(s);
    lemma_trim_start_shape(s);
    lemma_trim_end_shape(t);
    let y = trim_end_spec(t);
    if y.len() > 0 {
        assert(y[0] == t[0]);
        assert(trim_start_spec(y) == y);
        assert(!unicode_white_space(y.last()));
        assert(trim_end_spec(y) == y);
    } else {
        assert(trim_start_spec(y) == y);
        assert(trim_end_spec(y) == y);
    }
}


/// The slice of `s` without leading and trailing whitespace (as `str::trim`).
pub fn trim_str(s: &str) -> (t: &str)
    ensures
        t@ == trim_spec(s@),
{
    let chars = chars_of(s);
    let (lo, hi) = trim_bounds(&chars);
    s.substring_char(lo, hi)
}

/// The position of the first `c` in `s`.
pub open spec fn first_index_of(s: Seq<char>, c: char) -> int {
    choose|i: int| 0 <= i < s.len() && s[i] == c && forall|j: int| 0 <= j < i ==> s[j] != c
}

/// Position of the first occurrence of `c` in `chars`, if any.
pub fn find_char(chars: &Vec<char>, c: char) -> (r: Option<usize>)
    ensures
        match r {
            Some(p) => {
                &&& p < chars.len()
                &&& chars@[p as int] == c
                &&& forall|j: int| 0 <= j < p ==> chars@[j] != c
                &&& chars@.contains(c)
                &&& p == first_index_of(chars@, c)
            },
            None => !chars@.contains(c),
        },
{
    let mut i: usize = 0;
    while i < chars.len()
        invariant
            i <= chars.len(),
            forall|j: int| 0 <= j < i ==> chars@[j] != c,
        decreases chars.len() - i,
    {
        if chars[i] == c {
            proof {
                let q = first_index_of(chars@, c);
                assert(0 <= q < chars@.len() && chars@[q] == c && forall|j: int| 0 <= j < q ==> chars@[j] != c);
                if q < i {
                } else if q > i {
                    assert(chars@[i as int] != c);
                }
            }
            return Some(i);
        }
        i = i + 1;
    }
    None
}

} // verus!
