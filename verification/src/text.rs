//! Byte-level text utilities over UTF-8 encoded lines.
//!
//! Every column and offset that the scanners report is a byte offset into the
//! UTF-8 encoding of a line, so the specifications here speak of
//! `s.spec_bytes()`, the encoding of a `&str`.

use vstd::prelude::*;
use vstd::utf8::*;
use vstd::string::StringSliceAdditionalSpecFns;
use vstd::string::StringExecFns;

verus! {

broadcast use {vstd::seq_lib::group_seq_properties, vstd::utf8::encode_utf8_decode_utf8, vstd::utf8::encode_utf8_valid_utf8};

/// The first position at or after `from` where `needle` occurs in `hay`
/// (for a non-empty `needle`).
pub open spec fn find_from(hay: Seq<u8>, needle: Seq<u8>, from: int) -> Option<int>
    decreases hay.len() - from,
{
    if from < 0 || from >= hay.len() || from + needle.len() > hay.len() {
        None
    } else if hay.subrange(from, from + needle.len()) == needle {
        Some(from)
    } else {
        find_from(hay, needle, from + 1)
    }
}

/// `needle` occurs somewhere in `hay`.
pub open spec fn contains(hay: Seq<u8>, needle: Seq<u8>) -> bool {
    find_from(hay, needle, 0) is Some
}

/// `hay` begins with `prefix`.
pub open spec fn starts_with(hay: Seq<u8>, prefix: Seq<u8>) -> bool {
    prefix.len() <= hay.len() && hay.subrange(0, prefix.len() as int) == prefix
}

/// The text of the bytes `a..b` of `line`.
pub open spec fn slice_text(line: Seq<u8>, a: int, b: int) -> Seq<char> {
    decode_utf8(line.subrange(a, b))
}

/// Finds the first occurrence of `needle` in `hay` at or after `from`.
pub fn find_bytes(hay: &[u8], needle: &[u8], from: usize) -> (r: Option<usize>)
    ensures
        match r {
            Some(k) => find_from(hay@, needle@, from as int) == Some(k as int),
            None => find_from(hay@, needle@, from as int) is None,
        },
{
    let mut k = from;
    while k < hay.len()
        invariant
            from <= k,
            find_from(hay@, needle@, from as int) == find_from(hay@, needle@, k as int),
        decreases hay.len() - k,
    {
        if needle.len() > hay.len() - k {
            return None;
        }
        let mut j: usize = 0;
        let mut same = true;
        while j < needle.len()
            invariant
                j <= needle.len(),
                k + needle.len() <= hay.len(),
                same <==> forall|t: int| 0 <= t < j ==> hay@[k + t] == needle@[t],
            decreases needle.len() - j,
        {
            if hay[k + j] != needle[j] {
                same = false;
            }
            j = j + 1;
        }
        if same {
            assert(hay@.subrange(k as int, k + needle.len()) =~= needle@);
            return Some(k);
        }
        assert(hay@.subrange(k as int, k + needle.len()) != needle@) by {
            let t = choose|t: int| 0 <= t < needle.len() && hay@[k + t] != needle@[t];
            assert(hay@.subrange(k as int, k + needle.len())[t] != needle@[t]);
        }
        k = k + 1;
    }
    None
}

/// Whether `hay` begins with `prefix`.
pub fn starts_with_bytes(hay: &[u8], prefix: &[u8]) -> (r: bool)
    ensures
        r == starts_with(hay@, prefix@),
{
    if prefix.len() > hay.len() {
        return false;
    }
    let mut j: usize = 0;
    while j < prefix.len()
        invariant
            j <= prefix.len() <= hay.len(),
            forall|t: int| 0 <= t < j ==> hay@[t] == prefix@[t],
        decreases prefix.len() - j,
    {
        if hay[j] != prefix[j] {
            assert(hay@.subrange(0, prefix.len() as int)[j as int] != prefix@[j as int]);
            return false;
        }
        j = j + 1;
    }
    assert(hay@.subrange(0, prefix.len() as int) =~= prefix@);
    true
}


/// `i` is a character boundary of `b`, and `b` is valid UTF-8 from `i` on.
pub proof fn lemma_boundary_of_valid_tail(b: Seq<u8>, k: int)
    requires
        valid_utf8(b),
        0 <= k <= b.len(),
        valid_utf8(b.subrange(k, b.len() as int)),
    ensures
        is_char_boundary(b, k),
{
    broadcast use is_char_boundary_start_end_of_seq;
    if k < b.len() {
        let tail = b.subrange(k, b.len() as int);
        assert(valid_first_scalar(tail));
        assert(tail[0] == b[k]);
        is_char_boundary_iff_not_is_continuation_byte(b, k);
    }
}

/// The bytes `a..b` of a string, as a string.
pub fn substr<'a>(s: &'a str, a: usize, b: usize) -> (r: &'a str)
    requires
        a <= b <= s.spec_bytes().len(),
        is_char_boundary(s.spec_bytes(), a as int),
        is_char_boundary(s.spec_bytes(), b as int),
    ensures
        r.spec_bytes() == s.spec_bytes().subrange(a as int, b as int),
        r@ == slice_text(s.spec_bytes(), a as int, b as int),
{
    let ghost bs = s.spec_bytes();
    proof {
        valid_utf8_split(bs, a as int);
        valid_utf8_split(bs, b as int);
    }
    let (_, tail) = s.split_at(a);
    proof {
        let t = tail.spec_bytes();
        assert(t =~= bs.subrange(a as int, bs.len() as int));
        assert(t.subrange((b - a) as int, t.len() as int) =~= bs.subrange(b as int, bs.len() as int));
        lemma_boundary_of_valid_tail(t, (b - a) as int);
    }
    let (mid, _) = tail.split_at(b - a);
    proof {
        assert(mid.spec_bytes() =~= bs.subrange(a as int, b as int));
    }
    mid
}

/// The number of bytes of the encoding of a `White_Space` character (as
/// `char::is_whitespace` defines it) that starts at byte `i` of `b`, or 0.
pub open spec fn ws_width_at(b: Seq<u8>, i: int) -> int {
    if 0 <= i < b.len() && (b[i] == 0x20 || (0x09 <= b[i] <= 0x0d)) {
        1
    } else if 0 <= i && i + 1 < b.len() && b[i] == 0xc2 && (b[i + 1] == 0x85 || b[i + 1] == 0xa0) {
        2
    } else if 0 <= i && i + 2 < b.len() && is_ws3(b[i], b[i + 1], b[i + 2]) {
        3
    } else {
        0
    }
}

/// The three-byte encodings of the `White_Space` characters U+1680,
/// U+2000..=U+200A, U+2028, U+2029, U+202F, U+205F and U+3000.
pub open spec fn is_ws3(x: u8, y: u8, z: u8) -> bool {
    ||| (x == 0xe1 && y == 0x9a && z == 0x80)
    ||| (x == 0xe2 && y == 0x80 && ((0x80 <= z <= 0x8a) || z == 0xa8 || z == 0xa9 || z == 0xaf))
    ||| (x == 0xe2 && y == 0x81 && z == 0x9f)
    ||| (x == 0xe3 && y == 0x80 && z == 0x80)
}

/// The number of bytes of the encoding of a `White_Space` character that
/// ends just before byte `j` of `b`, or 0.
pub open spec fn ws_width_before(b: Seq<u8>, j: int) -> int {
    if 1 <= j <= b.len() && (b[j - 1] == 0x20 || (0x09 <= b[j - 1] <= 0x0d)) {
        1
    } else if 2 <= j <= b.len() && b[j - 2] == 0xc2 && (b[j - 1] == 0x85 || b[j - 1] == 0xa0) {
        2
    } else if 3 <= j <= b.len() && is_ws3(b[j - 3], b[j - 2], b[j - 1]) {
        3
    } else {
        0
    }
}

/// The first byte at or after `i` that does not start a whitespace character
/// (skipping whitespace characters one after another).
pub open spec fn ws_end_from(b: Seq<u8>, i: int) -> int
    decreases b.len() - i,
{
    if 0 <= i < b.len() && ws_width_at(b, i) > 0 {
        ws_end_from(b, i + ws_width_at(b, i))
    } else {
        i
    }
}

/// Walking back from `j` over whitespace characters, but not below `lo`:
/// where the trailing whitespace of `b[lo..j]` begins.
pub open spec fn ws_start_before(b: Seq<u8>, lo: int, j: int) -> int
    decreases j - lo,
{
    if lo < j && ws_width_before(b, j) > 0 && lo <= j - ws_width_before(b, j) {
        ws_start_before(b, lo, j - ws_width_before(b, j))
    } else {
        j
    }
}

/// Where the text of `b` starts once leading whitespace is removed
/// (`str::trim_start`).
pub open spec fn trim_start_at(b: Seq<u8>) -> int {
    ws_end_from(b, 0)
}

/// Where the text of `b` ends once trailing whitespace is removed from what
/// `trim_start` leaves (`str::trim`).
pub open spec fn trim_end_at(b: Seq<u8>) -> int {
    ws_start_before(b, trim_start_at(b), b.len() as int)
}

/// The bytes of `b` with leading and trailing whitespace removed
/// (`str::trim`).
pub open spec fn trim_bytes(b: Seq<u8>) -> Seq<u8> {
    b.subrange(trim_start_at(b), trim_end_at(b))
}

/// The bytes of `b` with leading whitespace removed (`str::trim_start`).
pub open spec fn trim_start_bytes(b: Seq<u8>) -> Seq<u8> {
    b.subrange(trim_start_at(b), b.len() as int)
}

proof fn lemma_ws_end_from_bounds(b: Seq<u8>, i: int)
    requires
        0 <= i <= b.len(),
    ensures
        i <= ws_end_from(b, i) <= b.len(),
    decreases b.len() - i,
{
    if 0 <= i < b.len() && ws_width_at(b, i) > 0 {
        lemma_ws_end_from_bounds(b, i + ws_width_at(b, i));
    }
}

proof fn lemma_ws_start_before_bounds(b: Seq<u8>, lo: int, j: int)
    requires
        0 <= lo <= j <= b.len(),
    ensures
        lo <= ws_start_before(b, lo, j) <= j,
        ws_start_before(b, lo, j) == j || ws_width_at(b, ws_start_before(b, lo, j)) > 0,
    decreases j - lo,
{
    if lo < j && ws_width_before(b, j) > 0 && lo <= j - ws_width_before(b, j) {
        lemma_ws_start_before_bounds(b, lo, j - ws_width_before(b, j));
    }
}

/// Skipping whitespace characters from a position where the text is valid
/// UTF-8 lands on a character boundary.
proof fn lemma_ws_end_from_boundary(b: Seq<u8>, i: int)
    requires
        valid_utf8(b),
        0 <= i <= b.len(),
        valid_utf8(b.subrange(i, b.len() as int)),
    ensures
        is_char_boundary(b, ws_end_from(b, i)),
    decreases b.len() - i,
{
    if 0 <= i < b.len() && ws_width_at(b, i) > 0 {
        let w = ws_width_at(b, i);
        let tail = b.subrange(i, b.len() as int);
        assert(tail[0] == b[i]);
        assert(valid_first_scalar(tail));
        assert(length_of_first_scalar(tail) == w);
        assert(pop_first_scalar(tail) =~= b.subrange(i + w, b.len() as int));
        lemma_ws_end_from_boundary(b, i + w);
    } else {
        lemma_boundary_of_valid_tail(b, i);
    }
}

/// Where the leading whitespace of `b` ends.
pub fn trim_start_index(b: &[u8]) -> (r: usize)
    ensures
        r == trim_start_at(b@),
        r <= b@.len(),
{
    let mut i: usize = 0;
    while i < b.len()
        invariant
            i <= b.len(),
            ws_end_from(b@, i as int) == ws_end_from(b@, 0),
        decreases b.len() - i,
    {
        let w = ws_width_at_exec(b, i);
        if w == 0 {
            return i;
        }
        i = i + w;
    }
    i
}

/// Exec form of `ws_width_at`.
fn ws_width_at_exec(b: &[u8], i: usize) -> (r: usize)
    requires
        i < b.len(),
    ensures
        r == ws_width_at(b@, i as int),
        i + r <= b.len(),
{
    let x = b[i];
    if x == 0x20 || (0x09 <= x && x <= 0x0d) {
        return 1;
    }
    if i + 1 < b.len() && x == 0xc2 && (b[i + 1] == 0x85 || b[i + 1] == 0xa0) {
        return 2;
    }
    if b.len() - i > 2 {
        let y = b[i + 1];
        let z = b[i + 2];
        if (x == 0xe1 && y == 0x9a && z == 0x80)
            || (x == 0xe2 && y == 0x80 && ((0x80 <= z && z <= 0x8a) || z == 0xa8 || z == 0xa9 || z == 0xaf))
            || (x == 0xe2 && y == 0x81 && z == 0x9f)
            || (x == 0xe3 && y == 0x80 && z == 0x80) {
            return 3;
        }
    }
    0
}

/// Exec form of `ws_width_before`.
fn ws_width_before_exec(b: &[u8], j: usize) -> (r: usize)
    requires
        j <= b.len(),
    ensures
        r == ws_width_before(b@, j as int),
        r <= j,
{
    if j >= 1 {
        let x = b[j - 1];
        if x == 0x20 || (0x09 <= x && x <= 0x0d) {
            return 1;
        }
    }
    if j >= 2 && b[j - 2] == 0xc2 && (b[j - 1] == 0x85 || b[j - 1] == 0xa0) {
        return 2;
    }
    if j >= 3 {
        let x = b[j - 3];
        let y = b[j - 2];
        let z = b[j - 1];
        if (x == 0xe1 && y == 0x9a && z == 0x80)
            || (x == 0xe2 && y == 0x80 && ((0x80 <= z && z <= 0x8a) || z == 0xa8 || z == 0xa9 || z == 0xaf))
            || (x == 0xe2 && y == 0x81 && z == 0x9f)
            || (x == 0xe3 && y == 0x80 && z == 0x80) {
            return 3;
        }
    }
    0
}

/// Where the trailing whitespace of `b[lo..len]` starts.
fn trim_end_index(b: &[u8], lo: usize) -> (r: usize)
    requires
        lo <= b.len(),
    ensures
        r == ws_start_before(b@, lo as int, b@.len() as int),
{
    let mut j = b.len();
    while lo < j
        invariant
            lo <= j <= b.len(),
            ws_start_before(b@, lo as int, j as int) == ws_start_before(b@, lo as int, b@.len() as int),
        decreases j - lo,
    {
        let w = ws_width_before_exec(b, j);
        if w == 0 || j - w < lo {
            return j;
        }
        j = j - w;
    }
    j
}

/// `str::trim`: the string without leading and trailing whitespace.
pub fn trim(s: &str) -> (r: &str)
    ensures
        r.spec_bytes() == trim_bytes(s.spec_bytes()),
        r@ == decode_utf8(trim_bytes(s.spec_bytes())),
{
    let b = s.as_bytes();
    let ghost bs = b@;
    let a = trim_start_index(b);
    let e = trim_end_index(b, a);
    proof {
        broadcast use is_char_boundary_start_end_of_seq;
        assert(bs.subrange(0, bs.len() as int) =~= bs);
        lemma_ws_end_from_boundary(bs, 0);
        lemma_ws_end_from_bounds(bs, 0);
        lemma_ws_start_before_bounds(bs, a as int, bs.len() as int);
        if e < bs.len() {
            is_char_boundary_iff_not_is_continuation_byte(bs, e as int);
        }
    }
    substr(s, a, e)
}


/// What `find_from` finds is an occurrence, and nothing before it (from
/// `from` on) is one.
pub proof fn lemma_find_from(hay: Seq<u8>, needle: Seq<u8>, from: int)
    requires
        0 <= from,
    ensures
        find_from(hay, needle, from) matches Some(k) ==> {
            &&& from <= k
            &&& 0 <= k < hay.len()
            &&& k + needle.len() <= hay.len()
            &&& hay.subrange(k, k + needle.len()) == needle
        },
        forall|j: int|
            from <= j && (find_from(hay, needle, from) matches Some(k) ==> j < k) && 0 <= j < hay.len()
                && j + needle.len() <= hay.len() ==> #[trigger] hay.subrange(j, j + needle.len()) != needle,
    decreases hay.len() - from,
{
    if from < 0 || from >= hay.len() || from + needle.len() > hay.len() {
    } else if hay.subrange(from, from + needle.len()) == needle {
    } else {
        lemma_find_from(hay, needle, from + 1);
    }
}

/// A byte below 0x80 in valid UTF-8 starts a character.
pub proof fn lemma_ascii_byte_boundary(b: Seq<u8>, k: int)
    requires
        valid_utf8(b),
        0 <= k < b.len(),
        b[k] < 0x80,
    ensures
        is_char_boundary(b, k),
{
    is_char_boundary_iff_not_is_continuation_byte(b, k);
}

/// The bytes of an ASCII string are its characters' codes.
pub proof fn lemma_ascii_str(s: &str)
    requires
        is_ascii_chars(s@),
    ensures
        s.spec_bytes() =~= Seq::new(s@.len(), |i: int| s@[i] as u8),
{
    vstd::string::is_ascii_spec_bytes(s);
}

/// Whether `needle` occurs in `hay`.
pub fn contains_bytes(hay: &[u8], needle: &[u8]) -> (r: bool)
    ensures
        r == contains(hay@, needle@),
{
    find_bytes(hay, needle, 0).is_some()
}


/// How many bytes of `b` equal `c`.
pub open spec fn count_byte(b: Seq<u8>, c: u8) -> int
    decreases b.len(),
{
    if b.len() == 0 {
        0
    } else {
        count_byte(b.drop_last(), c) + if b.last() == c { 1int } else { 0int }
    }
}

pub proof fn lemma_count_byte_bound(b: Seq<u8>, c: u8)
    ensures
        0 <= count_byte(b, c) <= b.len(),
    decreases b.len(),
{
    if b.len() > 0 {
        lemma_count_byte_bound(b.drop_last(), c);
    }
}

/// How many of the bytes of `b` from `from` on equal `c`.
pub fn count_byte_from(b: &[u8], from: usize, c: u8) -> (r: usize)
    requires
        from <= b.len(),
    ensures
        r == count_byte(b@.subrange(from as int, b@.len() as int), c),
        r <= b.len() - from,
{
    let mut n: usize = 0;
    let mut j = from;
    while j < b.len()
        invariant
            from <= j <= b.len(),
            n == count_byte(b@.subrange(from as int, j as int), c),
            n <= j - from,
        decreases b.len() - j,
    {
        assert(b@.subrange(from as int, j + 1).drop_last() =~= b@.subrange(from as int, j as int));
        if b[j] == c {
            n = n + 1;
        }
        j = j + 1;
    }
    n
}


/// Calls `str::len`. Besides the byte length, the contract claims that a
/// string holds at most `isize::MAX` bytes: the standard library documents
/// that no slice (`slice::from_raw_parts`) or allocation (`Layout`) is larger.
#[verifier::external_body]
pub(crate) fn byte_len(s: &str) -> (n: usize)
    ensures
        n == s.spec_bytes().len(),
        n <= isize::MAX,
{
    s.len()
}

/// The concatenation of three strings.
pub fn join3(a: &str, b: &str, c: &str) -> (r: String)
    ensures
        r@ == a@ + b@ + c@,
{
    let mut out = a.to_owned();
    out.append(b);
    out.append(c);
    out
}

/// The concatenation of five strings.
pub fn join5(a: &str, b: &str, c: &str, d: &str, e: &str) -> (r: String)
    ensures
        r@ == a@ + b@ + c@ + d@ + e@,
{
    let mut out = a.to_owned();
    out.append(b);
    out.append(c);
    out.append(d);
    out.append(e);
    out
}


/// What `str::to_lowercase` returns: the string with every character mapped
/// to its Unicode lowercase form.
pub uninterp spec fn lowercase(s: Seq<char>) -> Seq<char>;

/// Every character of `s` is ASCII.
pub open spec fn all_ascii(s: Seq<char>) -> bool {
    forall|i: int| 0 <= i < s.len() ==> (#[trigger] s[i]) < '\u{80}'
}

/// `s` with `A`–`Z` mapped to `a`–`z` and every other character unchanged.
pub open spec fn ascii_lowercase(s: Seq<char>) -> Seq<char> {
    Seq::new(s.len(), |i: int| if 'A' <= s[i] <= 'Z' { ((s[i] as int) + 32) as char } else { s[i] })
}

/// Calls `str::to_lowercase`. The contract claims that the result is a
/// function of the string, and that on ASCII text it maps `A`–`Z` to
/// `a`–`z` and keeps every other character, as the Unicode lowercase mapping
/// that the documentation names does.
#[verifier::external_body]
pub(crate) fn to_lowercase(s: &str) -> (r: String)
    ensures
        r@ == lowercase(s@),
        all_ascii(s@) ==> r@ == ascii_lowercase(s@),
{
    s.to_lowercase()
}

/// Whether two strings are equal.
pub fn str_eq(a: &str, b: &str) -> (r: bool)
    ensures
        r == (a@ == b@),
{
    let x = a.as_bytes();
    let y = b.as_bytes();
    let r = x.len() == y.len() && starts_with_bytes(x, y);
    proof {
        if r {
            assert(x@ =~= y@);
            encode_utf8_decode_utf8(a@);
            encode_utf8_decode_utf8(b@);
        } else if a@ == b@ {
            assert(x@ == y@);
            assert(x@.subrange(0, y@.len() as int) =~= x@);
        }
    }
    r
}


/// A character boundary of a prefix `b[..c]` that ends on a character
/// boundary is a character boundary of `b`.
pub proof fn lemma_prefix_boundary(b: Seq<u8>, c: int, k: int)
    requires
        valid_utf8(b),
        0 <= k <= c <= b.len(),
        is_char_boundary(b, c),
        is_char_boundary(b.subrange(0, c), k),
    ensures
        is_char_boundary(b, k),
{
    if k < c {
        valid_utf8_split(b, c);
        is_char_boundary_iff_not_is_continuation_byte(b.subrange(0, c), k);
        is_char_boundary_iff_not_is_continuation_byte(b, k);
    }
}

/// An ASCII letter.
pub open spec fn is_ascii_alpha(x: u8) -> bool {
    (0x41 <= x <= 0x5a) || (0x61 <= x <= 0x7a)
}

/// Whether `x` is an ASCII letter (`u8::is_ascii_alphabetic`).
pub fn ascii_alpha(x: u8) -> (r: bool)
    ensures
        r == is_ascii_alpha(x),
{
    (0x41 <= x && x <= 0x5a) || (0x61 <= x && x <= 0x7a)
}


/// The end of a line that starts at `from` and whose `\n` is at `k`: a `\r`
/// just before the `\n` is not part of the line.
pub open spec fn line_end(b: Seq<u8>, from: int, k: int) -> int {
    if k > from && b[k - 1] == 0x0d {
        k - 1
    } else {
        k
    }
}

/// The lines of `b` from byte `from` on (`str::lines`): split at each `\n`,
/// a `\r` before the `\n` removed, and no empty line after a final `\n`.
pub open spec fn lines_from(b: Seq<u8>, from: int) -> Seq<Seq<char>>
    decreases b.len() - from,
{
    if from < 0 || from >= b.len() {
        seq![]
    } else {
        match find_from(b, "\n".spec_bytes(), from) {
            Some(k) => {
                proof {
                    lemma_find_from(b, "\n".spec_bytes(), from);
                }
                seq![decode_utf8(b.subrange(from, line_end(b, from, k)))] + lines_from(b, k + 1)
            },
            None => seq![decode_utf8(b.subrange(from, b.len() as int))],
        }
    }
}

/// The lines of a text (`str::lines`).
pub open spec fn text_lines(b: Seq<u8>) -> Seq<Seq<char>> {
    lines_from(b, 0)
}

/// The position after an ASCII character that starts at a character
/// boundary is a character boundary.
pub proof fn lemma_after_ascii_boundary(b: Seq<u8>, k: int)
    requires
        valid_utf8(b),
        0 <= k < b.len(),
        is_char_boundary(b, k),
        b[k] < 0x80,
    ensures
        is_char_boundary(b, k + 1),
{
    valid_utf8_split(b, k);
    let tail = b.subrange(k, b.len() as int);
    assert(tail[0] == b[k]);
    assert(valid_first_scalar(tail));
    assert(pop_first_scalar(tail) =~= b.subrange(k + 1, b.len() as int));
    lemma_boundary_of_valid_tail(b, k + 1);
}

/// The lines of a text (`str::lines`).
pub fn split_lines(text: &str) -> (r: Vec<&str>)
    ensures
        r.deep_view() == text_lines(text.spec_bytes()),
{
    let b = text.as_bytes();
    let ghost bs = b@;
    let nl = "\n".as_bytes();
    proof {
        reveal_strlit("\n");
        lemma_ascii_str("\n");
        is_char_boundary_start_end_of_seq(bs);
    }
    let mut out: Vec<&str> = Vec::new();
    let mut from: usize = 0;
    while from < b.len()
        invariant
            from <= b.len(),
            bs == b@,
            bs == text.spec_bytes(),
            nl@ == "\n".spec_bytes(),
            nl@ == seq![0x0au8],
            is_char_boundary(bs, from as int),
            is_char_boundary(bs, bs.len() as int),
            out.deep_view() + lines_from(bs, from as int) == text_lines(bs),
        decreases b.len() - from,
    {
        let ghost prev = out.deep_view();
        proof {
            lemma_find_from(bs, nl@, from as int);
        }
        match find_bytes(b, nl, from) {
            Some(k) => {
                assert(bs.subrange(k as int, k + 1)[0] == bs[k as int]);
                proof {
                    lemma_ascii_byte_boundary(bs, k as int);
                    lemma_after_ascii_boundary(bs, k as int);
                }
                let end = if k > from && b[k - 1] == 0x0d {
                    proof {
                        lemma_ascii_byte_boundary(bs, k - 1);
                    }
                    k - 1
                } else {
                    k
                };
                let line = substr(text, from, end);
                out.push(line);
                assert(out.deep_view() =~= prev.push(line@));
                assert(lines_from(bs, from as int) == seq![line@] + lines_from(bs, k + 1));
                from = k + 1;
            },
            None => {
                let line = substr(text, from, b.len());
                out.push(line);
                assert(out.deep_view() =~= prev.push(line@));
                assert(lines_from(bs, b.len() as int) =~= Seq::<Seq<char>>::empty());
                from = b.len();
            },
        }
    }
    assert(lines_from(bs, from as int) =~= Seq::<Seq<char>>::empty());
    assert(out.deep_view() =~= text_lines(bs));
    out
}

} // verus!
