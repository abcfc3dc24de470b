//! The manifest scanner: a streaming pass over the bytes of an XML resource
//! manifest that yields the text content of each `file` element, in document
//! order, with XML entities decoded.

use vstd::prelude::*;
use vstd::slice::slice_subrange;
use vstd::slice::slice_to_vec;
use vstd::utf8::decode_utf8;
use vstd::utf8::encode_scalar;
use vstd::utf8::is_scalar;
use vstd::utf8::valid_utf8;

verus! {

/// Why a scan of the manifest failed.  Every failure is fatal to the whole
/// build; nothing is recovered.
#[derive(Clone, Copy, Debug, PartialEq, Eq, Structural)]
pub enum ScanErrorKind {
    /// The input ended in the middle of a tag, comment or declaration.
    UnexpectedEof,
    /// A closing tag did not match the most recently opened element.
    MismatchedClosingTag,
    /// The input ended while elements were still open.
    UnclosedTag,
    /// An entity reference (`&...;`) was absent, unterminated or unknown.
    InvalidEntity,
    /// The decoded text content of a `file` element was not valid UTF-8.
    InvalidUtf8,
}

/// A fatal parse error, carrying the byte offset at which it was detected.
#[derive(Clone, Copy, Debug, PartialEq, Eq, Structural)]
pub struct ParseError {
    pub position: usize,
    pub kind: ScanErrorKind,
}

/// The byte sequence of the element name `file`.
pub open spec fn file_name_bytes() -> Seq<u8> {
    seq![102u8, 105u8, 108u8, 101u8]
}

/// First position `j >= i` with `s[j] == b`, if any.
pub open spec fn find_byte(s: Seq<u8>, i: int, b: u8) -> Option<int>
    decreases s.len() - i when 0 <= i
{
    if i < 0 || i >= s.len() {
        None
    } else if s[i] == b {
        Some(i)
    } else {
        find_byte(s, i + 1, b)
    }
}

pub proof fn lemma_find_byte_range(s: Seq<u8>, i: int, b: u8)
    requires
        0 <= i,
    ensures
        find_byte(s, i, b) is Some ==> i <= find_byte(s, i, b)->0 < s.len(),
    decreases s.len() - i,
{
    if i < s.len() && s[i] != b {
        lemma_find_byte_range(s, i + 1, b);
    }
}

/// Position of the `>` that closes a tag opened before `i`, skipping over
/// quoted attribute values, so that a `>` inside quotes does not end the tag.
/// `quote` holds the active quote byte while inside an attribute value.
pub open spec fn find_tag_end(s: Seq<u8>, i: int, quote: Option<u8>) -> Option<int>
    decreases s.len() - i when 0 <= i
{
    if i < 0 || i >= s.len() {
        None
    } else {
        match quote {
            Some(q) => {
                if s[i] == q {
                    find_tag_end(s, i + 1, None)
                } else {
                    find_tag_end(s, i + 1, quote)
                }
            },
            None => {
                if s[i] == 62 {
                    Some(i)
                } else if s[i] == 34 || s[i] == 39 {
                    find_tag_end(s, i + 1, Some(s[i]))
                } else {
                    find_tag_end(s, i + 1, None)
                }
            },
        }
    }
}

pub proof fn lemma_find_tag_end_range(s: Seq<u8>, i: int, quote: Option<u8>)
    requires
        0 <= i,
    ensures
        find_tag_end(s, i, quote) is Some ==> i <= find_tag_end(s, i, quote)->0 < s.len(),
    decreases s.len() - i,
{
    if i < s.len() {
        lemma_find_tag_end_range(s, i + 1, None);
        lemma_find_tag_end_range(s, i + 1, quote);
        if quote is None && (s[i] == 34 || s[i] == 39) {
            lemma_find_tag_end_range(s, i + 1, Some(s[i]));
        }
    }
}

/// First position `j >= i` where `s[j] == a` and `s[j + 1] == b`, if any.
pub open spec fn find_two(s: Seq<u8>, i: int, a: u8, b: u8) -> Option<int>
    decreases s.len() - i when 0 <= i
{
    if i < 0 || i + 1 >= s.len() {
        None
    } else if s[i] == a && s[i + 1] == b {
        Some(i)
    } else {
        find_two(s, i + 1, a, b)
    }
}

pub proof fn lemma_find_two_range(s: Seq<u8>, i: int, a: u8, b: u8)
    requires
        0 <= i,
    ensures
        find_two(s, i, a, b) is Some ==> i <= find_two(s, i, a, b)->0 && find_two(s, i, a, b)->0
            + 1 < s.len(),
    decreases s.len() - i,
{
    if i + 1 < s.len() && !(s[i] == a && s[i + 1] == b) {
        lemma_find_two_range(s, i + 1, a, b);
    }
}

/// First position `j >= i` where `s[j..j+3]` is `-->`, if any.
pub open spec fn find_comment_end(s: Seq<u8>, i: int) -> Option<int>
    decreases s.len() - i when 0 <= i
{
    if i < 0 || i + 2 >= s.len() {
        None
    } else if s[i] == 45 && s[i + 1] == 45 && s[i + 2] == 62 {
        Some(i)
    } else {
        find_comment_end(s, i + 1)
    }
}

pub proof fn lemma_find_comment_end_range(s: Seq<u8>, i: int)
    requires
        0 <= i,
    ensures
        find_comment_end(s, i) is Some ==> i <= find_comment_end(s, i)->0 && find_comment_end(
            s,
            i,
        )->0 + 2 < s.len(),
    decreases s.len() - i,
{
    if i + 2 < s.len() && !(s[i] == 45 && s[i + 1] == 45 && s[i + 2] == 62) {
        lemma_find_comment_end_range(s, i + 1);
    }
}

/// True of the bytes that end an element name inside a tag: whitespace, `/`
/// and `>`.
pub open spec fn is_name_delim(b: u8) -> bool {
    b == 32 || b == 9 || b == 10 || b == 13 || b == 47 || b == 62
}

/// First position `j >= i` holding a name delimiter, or the end of the input.
pub open spec fn name_end(s: Seq<u8>, i: int) -> int
    decreases s.len() - i when 0 <= i
{
    if i < 0 {
        i
    } else if i >= s.len() {
        s.len() as int
    } else if is_name_delim(s[i]) {
        i
    } else {
        name_end(s, i + 1)
    }
}

pub proof fn lemma_name_end_range(s: Seq<u8>, i: int)
    requires
        0 <= i <= s.len(),
    ensures
        i <= name_end(s, i) <= s.len(),
    decreases s.len() - i,
{
    if i < s.len() && !is_name_delim(s[i]) {
        lemma_name_end_range(s, i + 1);
    }
}

/// One event of the tokenized manifest, as seen from byte position `i`:
/// which construct starts there, what it carries, and where the next one
/// begins.
pub enum Step {
    /// A start tag; carries the element name and the next position.
    Start(Seq<u8>, int),
    /// A self-closing tag (`<name .../>`); carries the next position.
    SelfClose(int),
    /// An end tag; carries the element name and the next position.
    End(Seq<u8>, int),
    /// A text node; carries the raw (still escaped) bytes and the next
    /// position.  The raw bytes start at the position the step was taken at.
    Text(Seq<u8>, int),
    /// A comment, declaration or processing instruction; carries the next
    /// position.
    Skip(int),
    /// The end of the input.
    Eof,
    /// A malformed construct; carries the offset and the reason.
    Fail(int, ScanErrorKind),
}

/// Tokenize one event at byte position `i`.
pub open spec fn next_step(s: Seq<u8>, i: int) -> Step {
    if i >= s.len() {
        Step::Eof
    } else if s[i] != 60 {
        // text node: up to the next '<' or the end of input
        match find_byte(s, i, 60) {
            Some(j) => Step::Text(s.subrange(i, j), j),
            None => Step::Text(s.subrange(i, s.len() as int), s.len() as int),
        }
    } else if i + 1 >= s.len() {
        Step::Fail(i, ScanErrorKind::UnexpectedEof)
    } else if s[i + 1] == 47 {
        // end tag: </name ... >
        let ne = name_end(s, i + 2);
        match find_tag_end(s, ne, None) {
            Some(j) => Step::End(s.subrange(i + 2, ne), j + 1),
            None => Step::Fail(i, ScanErrorKind::UnexpectedEof),
        }
    } else if s[i + 1] == 33 {
        // comment <!-- ... --> or other declaration <! ... >
        if i + 3 < s.len() && s[i + 2] == 45 && s[i + 3] == 45 {
            match find_comment_end(s, i + 4) {
                Some(j) => Step::Skip(j + 3),
                None => Step::Fail(i, ScanErrorKind::UnexpectedEof),
            }
        } else {
            match find_byte(s, i + 2, 62) {
                Some(j) => Step::Skip(j + 1),
                None => Step::Fail(i, ScanErrorKind::UnexpectedEof),
            }
        }
    } else if s[i + 1] == 63 {
        // processing instruction or XML declaration: <? ... ?>
        match find_two(s, i + 2, 63, 62) {
            Some(j) => Step::Skip(j + 2),
            None => Step::Fail(i, ScanErrorKind::UnexpectedEof),
        }
    } else {
        // start tag or self-closing tag: <name ... > or <name ... />
        let ne = name_end(s, i + 1);
        match find_tag_end(s, ne, None) {
            Some(j) => {
                if ne <= j - 1 && s[j - 1] == 47 {
                    Step::SelfClose(j + 1)
                } else {
                    Step::Start(s.subrange(i + 1, ne), j + 1)
                }
            },
            None => Step::Fail(i, ScanErrorKind::UnexpectedEof),
        }
    }
}

/// Every step taken strictly inside the input advances the position, and
/// never past the end of the input.
pub proof fn lemma_next_step_advances(s: Seq<u8>, i: int)
    requires
        0 <= i,
    ensures
        match next_step(s, i) {
            Step::Start(_, n) => i < n <= s.len(),
            Step::SelfClose(n) => i < n <= s.len(),
            Step::End(_, n) => i < n <= s.len(),
            Step::Text(_, n) => i < n <= s.len(),
            Step::Skip(n) => i < n <= s.len(),
            Step::Eof => i >= s.len(),
            Step::Fail(_, _) => true,
        },
{
    if i < s.len() {
        if s[i] != 60 {
            lemma_find_byte_range(s, i, 60);
            lemma_find_byte_range(s, i + 1, 60);
        } else if i + 1 < s.len() {
            lemma_name_end_range(s, i + 1);
            if i + 2 <= s.len() {
                lemma_name_end_range(s, i + 2);
                lemma_find_tag_end_range(s, name_end(s, i + 2), None);
            }
            lemma_find_tag_end_range(s, name_end(s, i + 1), None);
            lemma_find_byte_range(s, i + 2, 62);
            lemma_find_two_range(s, i + 2, 63, 62);
            if i + 4 <= s.len() {
                lemma_find_comment_end_range(s, i + 4);
            }
        }
    }
}

/// The value of a decimal digit byte, if it is one.
pub open spec fn dec_digit(b: u8) -> Option<int> {
    if 48 <= b <= 57 {
        Some((b - 48) as int)
    } else {
        None
    }
}

/// The value of a hexadecimal digit byte, if it is one.
pub open spec fn hex_digit(b: u8) -> Option<int> {
    if 48 <= b <= 57 {
        Some((b - 48) as int)
    } else if 97 <= b <= 102 {
        Some((b - 87) as int)
    } else if 65 <= b <= 70 {
        Some((b - 55) as int)
    } else {
        None
    }
}

/// The largest Unicode scalar value; anything above can never name a
/// character, so accumulation is clamped just past it.
pub open spec fn scalar_cap() -> int {
    0x10FFFF
}

/// Left-to-right value of a digit string in the given base, clamped just
/// above the scalar cap (a clamped value is never a valid scalar, so the
/// clamp cannot make an out-of-range reference valid).  `None` if a byte is
/// not a digit of the base.
pub open spec fn digits_value(body: Seq<u8>, base: int, acc: int) -> Option<int>
    decreases body.len(),
{
    if body.len() == 0 {
        Some(acc)
    } else {
        let d = if base == 16 {
            hex_digit(body[0])
        } else {
            dec_digit(body[0])
        };
        match d {
            None => None,
            Some(d) => digits_value(
                body.drop_first(),
                base,
                if acc > scalar_cap() {
                    scalar_cap() + 1
                } else {
                    acc * base + d
                },
            ),
        }
    }
}

/// The replacement bytes of one entity body (the part between `&` and `;`):
/// the five predefined XML entities, and decimal and hexadecimal character
/// references, whose scalar is emitted in UTF-8.  `None` for anything else.
pub open spec fn entity_bytes(body: Seq<u8>) -> Option<Seq<u8>> {
    if body == seq![97u8, 109u8, 112u8] {
        Some(seq![38u8])  // amp
    } else if body == seq![108u8, 116u8] {
        Some(seq![60u8])  // lt
    } else if body == seq![103u8, 116u8] {
        Some(seq![62u8])  // gt
    } else if body == seq![97u8, 112u8, 111u8, 115u8] {
        Some(seq![39u8])  // apos
    } else if body == seq![113u8, 117u8, 111u8, 116u8] {
        Some(seq![34u8])  // quot
    } else if body.len() >= 2 && body[0] == 35 {
        let v = if body[1] == 120 {
            if body.len() >= 3 {
                digits_value(body.subrange(2, body.len() as int), 16, 0)
            } else {
                None
            }
        } else {
            digits_value(body.subrange(1, body.len() as int), 10, 0)
        };
        match v {
            None => None,
            Some(v) => if 0 <= v <= u32::MAX && is_scalar(v as u32) {
                Some(encode_scalar(v as u32))
            } else {
                None
            },
        }
    } else {
        None
    }
}

/// Entity-decode the raw bytes of a text node, from position `i` on.
/// `Err(p)` reports the position of an absent, unterminated or unknown
/// entity reference, relative to the start of the text node.
pub open spec fn unescape_from(s: Seq<u8>, i: int) -> Result<Seq<u8>, int>
    decreases s.len() - i when 0 <= i via unescape_from_dec
{
    if i >= s.len() {
        Ok(seq![])
    } else if s[i] == 38 {
        match find_byte(s, i + 1, 59) {
            None => Err(i),
            Some(j) => match entity_bytes(s.subrange(i + 1, j)) {
                None => Err(i),
                Some(bs) => match unescape_from(s, j + 1) {
                    Ok(rest) => Ok(bs + rest),
                    Err(e) => Err(e),
                },
            },
        }
    } else {
        match unescape_from(s, i + 1) {
            Ok(rest) => Ok(seq![s[i]] + rest),
            Err(e) => Err(e),
        }
    }
}

#[via_fn]
proof fn unescape_from_dec(s: Seq<u8>, i: int) {
    if 0 <= i < s.len() && s[i] == 38 {
        lemma_find_byte_range(s, i + 1, 59);
    }
}

/// The whole scan from position `i`, given the scanner state: whether the
/// last seen start tag was an unconsumed `file` tag, and the stack of open
/// element names.  Yields the decoded text content of each `file` element in
/// document order, or the first fatal error.
pub open spec fn scan_from(s: Seq<u8>, i: int, inside: bool, open: Seq<Seq<u8>>) -> Result<
    Seq<Seq<char>>,
    (int, ScanErrorKind),
>
    decreases s.len() - i when 0 <= i via scan_from_dec
{
    match next_step(s, i) {
        Step::Eof => {
            if open.len() == 0 {
                Ok(seq![])
            } else {
                Err((s.len() as int, ScanErrorKind::UnclosedTag))
            }
        },
        Step::Fail(p, k) => Err((p, k)),
        Step::Skip(n) => scan_from(s, n, inside, open),
        Step::SelfClose(n) => scan_from(s, n, inside, open),
        Step::Start(name, n) => scan_from(
            s,
            n,
            inside || name == file_name_bytes(),
            open.push(name),
        ),
        Step::End(name, n) => {
            if open.len() > 0 && open.last() == name {
                scan_from(s, n, inside, open.drop_last())
            } else {
                Err((i, ScanErrorKind::MismatchedClosingTag))
            }
        },
        Step::Text(raw, n) => {
            if !inside {
                scan_from(s, n, inside, open)
            } else {
                match unescape_from(raw, 0) {
                    Err(rel) => Err((i + rel, ScanErrorKind::InvalidEntity)),
                    Ok(bytes) => {
                        if !valid_utf8(bytes) {
                            Err((i, ScanErrorKind::InvalidUtf8))
                        } else {
                            match scan_from(s, n, false, open) {
                                Ok(rest) => Ok(seq![decode_utf8(bytes)] + rest),
                                Err(e) => Err(e),
                            }
                        }
                    },
                }
            }
        },
    }
}

#[via_fn]
proof fn scan_from_dec(s: Seq<u8>, i: int, inside: bool, open: Seq<Seq<u8>>) {
    lemma_next_step_advances(s, i);
}

/// What scanning a manifest means: the scan of the whole input, started
/// outside any `file` element with no elements open.
pub open spec fn scan_spec(s: Seq<u8>) -> Result<Seq<Seq<char>>, (int, ScanErrorKind)> {
    scan_from(s, 0, false, seq![])
}

/// No start tag named `file` occurs anywhere in the token walk from `i` on.
pub open spec fn no_file_start(s: Seq<u8>, i: int) -> bool
    decreases s.len() - i when 0 <= i via no_file_start_dec
{
    match next_step(s, i) {
        Step::Eof => true,
        Step::Fail(_, _) => true,
        Step::Start(name, n) => name != file_name_bytes() && no_file_start(s, n),
        Step::SelfClose(n) => no_file_start(s, n),
        Step::End(_, n) => no_file_start(s, n),
        Step::Text(_, n) => no_file_start(s, n),
        Step::Skip(n) => no_file_start(s, n),
    }
}

#[via_fn]
proof fn no_file_start_dec(s: Seq<u8>, i: int) {
    lemma_next_step_advances(s, i);
}

proof fn lemma_scan_from_no_file(s: Seq<u8>, i: int, open: Seq<Seq<u8>>)
    requires
        0 <= i,
        no_file_start(s, i),
        scan_from(s, i, false, open) is Ok,
    ensures
        scan_from(s, i, false, open)->Ok_0 == Seq::<Seq<char>>::empty(),
    decreases s.len() - i,
{
    lemma_next_step_advances(s, i);
    match next_step(s, i) {
        Step::Eof => {},
        Step::Fail(_, _) => {},
        Step::Start(name, n) => {
            lemma_scan_from_no_file(s, n, open.push(name));
        },
        Step::SelfClose(n) => {
            lemma_scan_from_no_file(s, n, open);
        },
        Step::End(name, n) => {
            if open.len() > 0 && open.last() == name {
                lemma_scan_from_no_file(s, n, open.drop_last());
            }
        },
        Step::Text(_, n) => {
            lemma_scan_from_no_file(s, n, open);
        },
        Step::Skip(n) => {
            lemma_scan_from_no_file(s, n, open);
        },
    }
}

/// A manifest with no `file` elements yields no paths: when no start tag
/// named `file` occurs in the input and the scan succeeds, the scanner's
/// sequence of paths is empty.
pub proof fn lemma_no_file_elements_yield_nothing(s: Seq<u8>)
    requires
        no_file_start(s, 0),
        scan_spec(s) is Ok,
    ensures
        scan_spec(s)->Ok_0 == Seq::<Seq<char>>::empty(),
{
    lemma_scan_from_no_file(s, 0, seq![]);
}

fn exec_find_byte(s: &[u8], from: usize, b: u8) -> (r: Option<usize>)
    requires
        from <= s@.len(),
    ensures
        match r {
            Some(j) => find_byte(s@, from as int, b) == Some(j as int) && from <= j < s@.len(),
            None => find_byte(s@, from as int, b) is None,
        },
{
    let mut k: usize = from;
    while k < s.len()
        invariant
            from <= k <= s@.len(),
            find_byte(s@, from as int, b) == find_byte(s@, k as int, b),
        decreases s@.len() - k,
    {
        if s[k] == b {
            return Some(k);
        }
        k += 1;
    }
    None
}

fn exec_find_tag_end(s: &[u8], from: usize) -> (r: Option<usize>)
    requires
        from <= s@.len(),
    ensures
        match r {
            Some(j) => find_tag_end(s@, from as int, None) == Some(j as int) && from <= j
                < s@.len(),
            None => find_tag_end(s@, from as int, None) is None,
        },
{
    let mut k: usize = from;
    let mut quote: Option<u8> = None;
    while k < s.len()
        invariant
            from <= k <= s@.len(),
            find_tag_end(s@, from as int, None) == find_tag_end(s@, k as int, quote),
        decreases s@.len() - k,
    {
        let c = s[k];
        match quote {
            Some(q) => {
                if c == q {
                    quote = None;
                }
            },
            None => {
                if c == 62 {
                    return Some(k);
                } else if c == 34 || c == 39 {
                    quote = Some(c);
                }
            },
        }
        k += 1;
    }
    None
}

fn exec_find_two(s: &[u8], from: usize, a: u8, b: u8) -> (r: Option<usize>)
    requires
        from <= s@.len(),
    ensures
        match r {
            Some(j) => find_two(s@, from as int, a, b) == Some(j as int) && from <= j && j + 1
                < s@.len(),
            None => find_two(s@, from as int, a, b) is None,
        },
{
    let mut k: usize = from;
    while k < s.len() && k + 1 < s.len()
        invariant
            from <= k,
            k <= s@.len(),
            find_two(s@, from as int, a, b) == find_two(s@, k as int, a, b),
        decreases s@.len() - k,
    {
        if s[k] == a && s[k + 1] == b {
            return Some(k);
        }
        k += 1;
    }
    None
}

fn exec_find_comment_end(s: &[u8], from: usize) -> (r: Option<usize>)
    requires
        from <= s@.len(),
    ensures
        match r {
            Some(j) => find_comment_end(s@, from as int) == Some(j as int) && from <= j && j + 2
                < s@.len(),
            None => find_comment_end(s@, from as int) is None,
        },
{
    let mut k: usize = from;
    while k < s.len() && k + 1 < s.len() && k + 2 < s.len()
        invariant
            from <= k,
            k <= s@.len(),
            find_comment_end(s@, from as int) == find_comment_end(s@, k as int),
        decreases s@.len() - k,
    {
        if s[k] == 45 && s[k + 1] == 45 && s[k + 2] == 62 {
            return Some(k);
        }
        k += 1;
    }
    None
}

fn exec_name_end(s: &[u8], from: usize) -> (r: usize)
    requires
        from <= s@.len(),
    ensures
        r as int == name_end(s@, from as int),
        from <= r <= s@.len(),
{
    let mut k: usize = from;
    while k < s.len()
        invariant
            from <= k <= s@.len(),
            name_end(s@, from as int) == name_end(s@, k as int),
        decreases s@.len() - k,
    {
        let c = s[k];
        if c == 32 || c == 9 || c == 10 || c == 13 || c == 47 || c == 62 {
            return k;
        }
        k += 1;
    }
    k
}

/// Whether a tag name is `file`.
fn is_file_name(name: &[u8]) -> (r: bool)
    ensures
        r == (name@ == file_name_bytes()),
{
    let r = name.len() == 4 && name[0] == 102 && name[1] == 105 && name[2] == 108 && name[3] == 101;
    proof {
        if r {
            assert(name@ =~= file_name_bytes());
        }
    }
    r
}

fn bytes_eq(a: &[u8], b: &[u8]) -> (r: bool)
    ensures
        r == (a@ == b@),
{
    if a.len() != b.len() {
        return false;
    }
    let mut k: usize = 0;
    while k < a.len()
        invariant
            0 <= k <= a@.len(),
            a@.len() == b@.len(),
            forall|m: int| 0 <= m < k ==> a@[m] == b@[m],
        decreases a@.len() - k,
    {
        if a[k] != b[k] {
            return false;
        }
        k += 1;
    }
    proof {
        assert(a@ =~= b@);
    }
    true
}

fn exec_dec_digit(b: u8) -> (r: Option<u32>)
    ensures
        match r {
            Some(d) => dec_digit(b) == Some(d as int),
            None => dec_digit(b) is None,
        },
{
    if 48 <= b && b <= 57 {
        Some((b - 48) as u32)
    } else {
        None
    }
}

fn exec_hex_digit(b: u8) -> (r: Option<u32>)
    ensures
        match r {
            Some(d) => hex_digit(b) == Some(d as int),
            None => hex_digit(b) is None,
        },
{
    if 48 <= b && b <= 57 {
        Some((b - 48) as u32)
    } else if 97 <= b && b <= 102 {
        Some((b - 87) as u32)
    } else if 65 <= b && b <= 70 {
        Some((b - 55) as u32)
    } else {
        None
    }
}

/// The UTF-8 bytes of one Unicode scalar value.
fn encode_scalar_exec(v: u32) -> (r: Vec<u8>)
    requires
        is_scalar(v),
    ensures
        r@ == encode_scalar(v),
{
    let mut out: Vec<u8> = Vec::new();
    if v <= 0x7F {
        assert((v & 0x7F) <= 0x7F) by (bit_vector);
        out.push((v & 0x7F) as u8);
        proof {
            assert(out@ =~= encode_scalar(v));
        }
    } else if v <= 0x7FF {
        assert(((v >> 6) & 0x1F) <= 0x1F && (v & 0x3F) <= 0x3F) by (bit_vector);
        out.push(0xC0u8 | (((v >> 6) & 0x1F) as u8));
        out.push(0x80u8 | ((v & 0x3F) as u8));
        proof {
            assert(out@ =~= encode_scalar(v));
        }
    } else if v <= 0xFFFF {
        assert(((v >> 12) & 0x0F) <= 0x0F && ((v >> 6) & 0x3F) <= 0x3F && (v & 0x3F) <= 0x3F)
            by (bit_vector);
        out.push(0xE0u8 | (((v >> 12) & 0x0F) as u8));
        out.push(0x80u8 | (((v >> 6) & 0x3F) as u8));
        out.push(0x80u8 | ((v & 0x3F) as u8));
        proof {
            assert(out@ =~= encode_scalar(v));
        }
    } else {
        assert(((v >> 18) & 0x7) <= 0x7 && ((v >> 12) & 0x3F) <= 0x3F && ((v >> 6) & 0x3F) <= 0x3F
            && (v & 0x3F) <= 0x3F) by (bit_vector);
        out.push(0xF0u8 | (((v >> 18) & 0x7) as u8));
        out.push(0x80u8 | (((v >> 12) & 0x3F) as u8));
        out.push(0x80u8 | (((v >> 6) & 0x3F) as u8));
        out.push(0x80u8 | ((v & 0x3F) as u8));
        proof {
            assert(out@ =~= encode_scalar(v));
        }
    }
    out
}

/// The scalar value of a digit string, clamped just above the scalar cap.
fn exec_digits_value(body: &[u8], start: usize, base: u32) -> (r: Option<u32>)
    requires
        start <= body@.len(),
        base == 10 || base == 16,
    ensures
        match r {
            Some(v) => digits_value(
                body@.subrange(start as int, body@.len() as int),
                base as int,
                0,
            ) == Some(v as int),
            None => digits_value(
                body@.subrange(start as int, body@.len() as int),
                base as int,
                0,
            ) is None,
        },
{
    let mut acc: u32 = 0;
    let mut k: usize = start;
    while k < body.len()
        invariant
            start <= k <= body@.len(),
            acc <= 0x10FFFF * 16 + 15,
            base == 10 || base == 16,
            digits_value(body@.subrange(start as int, body@.len() as int), base as int, 0)
                == digits_value(
                body@.subrange(k as int, body@.len() as int),
                base as int,
                acc as int,
            ),
        decreases body@.len() - k,
    {
        let d = if base == 16 {
            exec_hex_digit(body[k])
        } else {
            exec_dec_digit(body[k])
        };
        proof {
            assert(body@.subrange(k as int, body@.len() as int)[0] == body@[k as int]);
        }
        match d {
            None => {
                return None;
            },
            Some(d) => {
                proof {
                    assert(body@.subrange(k as int, body@.len() as int).drop_first()
                        =~= body@.subrange(k as int + 1, body@.len() as int));
                }
                acc = if acc > 0x10FFFF {
                    0x110000
                } else {
                    acc * base + d
                };
                k += 1;
            },
        }
    }
    proof {
        assert(body@.subrange(k as int, body@.len() as int) =~= Seq::<u8>::empty());
    }
    Some(acc)
}

/// The replacement bytes of one entity body, if it is a recognized entity.
fn exec_entity_bytes(body: &[u8]) -> (r: Option<Vec<u8>>)
    ensures
        match r {
            Some(v) => entity_bytes(body@) == Some(v@),
            None => entity_bytes(body@) is None,
        },
{
    if body.len() == 3 && body[0] == 97 && body[1] == 109 && body[2] == 112 {
        proof {
            assert(body@ =~= seq![97u8, 109u8, 112u8]);
        }
        let mut v: Vec<u8> = Vec::new();
        v.push(38);
        proof {
            assert(v@ =~= seq![38u8]);
        }
        return Some(v);
    }
    if body.len() == 2 && body[0] == 108 && body[1] == 116 {
        proof {
            assert(body@ =~= seq![108u8, 116u8]);
        }
        let mut v: Vec<u8> = Vec::new();
        v.push(60);
        proof {
            assert(v@ =~= seq![60u8]);
        }
        return Some(v);
    }
    if body.len() == 2 && body[0] == 103 && body[1] == 116 {
        proof {
            assert(body@ =~= seq![103u8, 116u8]);
        }
        let mut v: Vec<u8> = Vec::new();
        v.push(62);
        proof {
            assert(v@ =~= seq![62u8]);
        }
        return Some(v);
    }
    if body.len() == 4 && body[0] == 97 && body[1] == 112 && body[2] == 111 && body[3] == 115 {
        proof {
            assert(body@ =~= seq![97u8, 112u8, 111u8, 115u8]);
        }
        let mut v: Vec<u8> = Vec::new();
        v.push(39);
        proof {
            assert(v@ =~= seq![39u8]);
        }
        return Some(v);
    }
    if body.len() == 4 && body[0] == 113 && body[1] == 117 && body[2] == 111 && body[3] == 116 {
        proof {
            assert(body@ =~= seq![113u8, 117u8, 111u8, 116u8]);
        }
        let mut v: Vec<u8> = Vec::new();
        v.push(34);
        proof {
            assert(v@ =~= seq![34u8]);
        }
        return Some(v);
    }
    if body.len() >= 2 && body[0] == 35 {
        let val = if body[1] == 120 {
            if body.len() < 3 {
                return None;
            }
            exec_digits_value(body, 2, 16)
        } else {
            exec_digits_value(body, 1, 10)
        };
        match val {
            None => None,
            Some(v) => {
                if v < 0xD800 || (0xDFFF < v && v <= 0x10FFFF) {
                    Some(encode_scalar_exec(v))
                } else {
                    None
                }
            },
        }
    } else {
        None
    }
}

/// Entity-decode the raw bytes of one text node.  `Err(p)` is the offset of a
/// bad entity reference, relative to the start of the text node.
fn exec_unescape(s: &[u8]) -> (r: Result<Vec<u8>, usize>)
    ensures
        match r {
            Ok(v) => unescape_from(s@, 0) == Ok::<Seq<u8>, int>(v@),
            Err(p) => unescape_from(s@, 0) == Err::<Seq<u8>, int>(p as int) && p < s@.len(),
        },
{
    let mut out: Vec<u8> = Vec::new();
    let mut i: usize = 0;
    while i < s.len()
        invariant
            0 <= i <= s@.len(),
            match unescape_from(s@, i as int) {
                Ok(rest) => unescape_from(s@, 0) == Ok::<Seq<u8>, int>(out@ + rest),
                Err(e) => unescape_from(s@, 0) == Err::<Seq<u8>, int>(e),
            },
        decreases s@.len() - i,
    {
        let c = s[i];
        if c == 38 {
            match exec_find_byte(s, i + 1, 59) {
                None => {
                    return Err(i);
                },
                Some(j) => {
                    let entity = slice_subrange(s, i + 1, j);
                    match exec_entity_bytes(entity) {
                        None => {
                            return Err(i);
                        },
                        Some(mut bs) => {
                            proof {
                                let rest_j = unescape_from(s@, j as int + 1);
                                if rest_j is Ok {
                                    assert(out@ + (bs@ + rest_j->Ok_0) =~= (out@ + bs@)
                                        + rest_j->Ok_0);
                                }
                            }
                            out.append(&mut bs);
                            i = j + 1;
                        },
                    }
                },
            }
        } else {
            proof {
                let rest_n = unescape_from(s@, i as int + 1);
                if rest_n is Ok {
                    assert(out@ + (seq![s@[i as int]] + rest_n->Ok_0) =~= out@.push(s@[i as int])
                        + rest_n->Ok_0);
                }
            }
            out.push(c);
            i += 1;
        }
    }
    proof {
        assert(out@ + Seq::<u8>::empty() =~= out@);
    }
    Ok(out)
}

/// Relies on `String::from_utf8`: it returns the string made of exactly the
/// given bytes when they are valid UTF-8, and fails otherwise.
#[verifier::external_body]
fn utf8_to_string(bytes: Vec<u8>) -> (r: Option<String>)
    ensures
        r is Some <==> valid_utf8(bytes@),
        r is Some ==> r->0@ == decode_utf8(bytes@),
{
    String::from_utf8(bytes).ok()
}

/// Scan the bytes of an XML resource manifest and return the decoded text
/// content of each `file` element, in document order: exactly what
/// [`scan_spec`] says of the input.  The first malformed construct is a
/// fatal error carrying the byte offset at which it was detected.
pub fn scan_manifest(input: &[u8]) -> (r: Result<Vec<String>, ParseError>)
    ensures
        match r {
            Ok(paths) => scan_spec(input@) == Ok::<Seq<Seq<char>>, (int, ScanErrorKind)>(
                paths.deep_view(),
            ),
            Err(e) => scan_spec(input@) == Err::<Seq<Seq<char>>, (int, ScanErrorKind)>(
                (e.position as int, e.kind),
            ),
        },
{
    let mut i: usize = 0;
    let mut inside: bool = false;
    let mut open: Vec<Vec<u8>> = Vec::new();
    let mut acc: Vec<String> = Vec::new();
    proof {
        assert(open.deep_view() =~= Seq::<Seq<u8>>::empty());
        assert(acc.deep_view() =~= Seq::<Seq<char>>::empty());
        if scan_spec(input@) is Ok {
            assert(acc.deep_view() + scan_spec(input@)->Ok_0 =~= scan_spec(input@)->Ok_0);
        }
    }
    loop
        invariant
            i <= input@.len(),
            match scan_from(input@, i as int, inside, open.deep_view()) {
                Ok(rest) => scan_spec(input@) == Ok::<Seq<Seq<char>>, (int, ScanErrorKind)>(
                    acc.deep_view() + rest,
                ),
                Err(e) => scan_spec(input@) == Err::<Seq<Seq<char>>, (int, ScanErrorKind)>(e),
            },
        decreases input@.len() - i,
    {
        if i >= input.len() {
            // Step::Eof
            if open.len() == 0 {
                proof {
                    assert(open.deep_view().len() == 0);
                    assert(acc.deep_view() + Seq::<Seq<char>>::empty() =~= acc.deep_view());
                }
                return Ok(acc);
            } else {
                proof {
                    assert(open.deep_view().len() != 0);
                }
                return Err(
                    ParseError { position: input.len(), kind: ScanErrorKind::UnclosedTag },
                );
            }
        }
        let c = input[i];
        if c != 60 {
            // Step::Text
            let j = match exec_find_byte(input, i, 60) {
                Some(j) => {
                    proof {
                        lemma_find_byte_range(input@, i as int + 1, 60);
                    }
                    j
                },
                None => input.len(),
            };
            if inside {
                let raw = slice_subrange(input, i, j);
                match exec_unescape(raw) {
                    Err(rel) => {
                        return Err(
                            ParseError { position: i + rel, kind: ScanErrorKind::InvalidEntity },
                        );
                    },
                    Ok(bytes) => {
                        let ghost bv = bytes@;
                        match utf8_to_string(bytes) {
                            None => {
                                return Err(
                                    ParseError { position: i, kind: ScanErrorKind::InvalidUtf8 },
                                );
                            },
                            Some(path) => {
                                proof {
                                    let rest_n = scan_from(
                                        input@,
                                        j as int,
                                        false,
                                        open.deep_view(),
                                    );
                                    if rest_n is Ok {
                                        assert(acc.deep_view() + (seq![path@] + rest_n->Ok_0)
                                            =~= (acc.deep_view() + seq![path@]) + rest_n->Ok_0);
                                    }
                                }
                                let ghost prev = acc.deep_view();
                                acc.push(path);
                                proof {
                                    assert(acc.deep_view() =~= prev + seq![path@]);
                                }
                                inside = false;
                                i = j;
                            },
                        }
                    },
                }
            } else {
                i = j;
            }
        } else {
            if i + 1 >= input.len() {
                return Err(ParseError { position: i, kind: ScanErrorKind::UnexpectedEof });
            }
            let c1 = input[i + 1];
            if c1 == 47 {
                // end tag
                let ne = exec_name_end(input, i + 2);
                match exec_find_tag_end(input, ne) {
                    None => {
                        return Err(
                            ParseError { position: i, kind: ScanErrorKind::UnexpectedEof },
                        );
                    },
                    Some(j) => {
                        let name = slice_subrange(input, i + 2, ne);
                        let matches_top = if open.len() > 0 {
                            proof {
                                assert(open.deep_view().last() =~= open@[open@.len() - 1]@);
                            }
                            bytes_eq(name, open[open.len() - 1].as_slice())
                        } else {
                            false
                        };
                        if matches_top {
                            let ghost prev = open.deep_view();
                            let _ = open.pop();
                            proof {
                                assert(open.deep_view() =~= prev.drop_last());
                            }
                            i = j + 1;
                        } else {
                            return Err(
                                ParseError {
                                    position: i,
                                    kind: ScanErrorKind::MismatchedClosingTag,
                                },
                            );
                        }
                    },
                }
            } else if c1 == 33 {
                let is_comment = i + 2 < input.len() && i + 3 < input.len() && input[i + 2] == 45
                    && input[i + 3] == 45;
                if is_comment {
                    match exec_find_comment_end(input, i + 4) {
                        None => {
                            return Err(
                                ParseError { position: i, kind: ScanErrorKind::UnexpectedEof },
                            );
                        },
                        Some(j) => {
                            i = j + 3;
                        },
                    }
                } else {
                    match exec_find_byte(input, i + 2, 62) {
                        None => {
                            return Err(
                                ParseError { position: i, kind: ScanErrorKind::UnexpectedEof },
                            );
                        },
                        Some(j) => {
                            i = j + 1;
                        },
                    }
                }
            } else if c1 == 63 {
                match exec_find_two(input, i + 2, 63, 62) {
                    None => {
                        return Err(
                            ParseError { position: i, kind: ScanErrorKind::UnexpectedEof },
                        );
                    },
                    Some(j) => {
                        i = j + 2;
                    },
                }
            } else {
                // start tag or self-closing tag
                let ne = exec_name_end(input, i + 1);
                match exec_find_tag_end(input, ne) {
                    None => {
                        return Err(
                            ParseError { position: i, kind: ScanErrorKind::UnexpectedEof },
                        );
                    },
                    Some(j) => {
                        let selfclose = ne <= j - 1 && input[j - 1] == 47;
                        if selfclose {
                            i = j + 1;
                        } else {
                            let name = slice_to_vec(slice_subrange(input, i + 1, ne));
                            let newinside = inside || is_file_name(name.as_slice());
                            let ghost prev = open.deep_view();
                            open.push(name);
                            proof {
                                assert(open.deep_view() =~~= prev.push(
                                    input@.subrange(i as int + 1, ne as int),
                                ));
                            }
                            inside = newinside;
                            i = j + 1;
                        }
                    },
                }
            }
        }
    }
}

} // verus!
