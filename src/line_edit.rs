//! Line-editing core: a byte buffer holding UTF-8 text and an insertion point
use vstd::prelude::*;
use vstd::utf8::*;
use vstd::std_specs::iter::IteratorSpec;
use std::str::Chars;

verus! {

/// Error type of the line editor
#[derive(Copy, Clone, Debug, PartialEq, Eq, Structural)]
pub enum LineEditError {
    /// The bytes at the insertion point do not form a character
    Generic,
    /// The text is not valid UTF-8
    Utf8,
}

/// Relies on `String::from_utf8`: it accepts exactly the valid UTF-8 byte
/// sequences and then holds the characters they encode.
#[verifier::external_body]
pub(crate) fn string_from_utf8(bytes: Vec<u8>) -> (r: Option<String>)
    ensures
        r.is_some() <==> valid_utf8(bytes@),
        r.is_some() ==> r.unwrap()@ == decode_utf8(bytes@),
{
    String::from_utf8(bytes).ok()
}

/// A byte array that can back a [LineEditState]
pub trait LineEditBuffer: Sized {
    /// The bytes of the buffer
    spec fn bytes(&self) -> Seq<u8>;

    /// Whether requests for more memory are granted
    spec fn grows() -> bool;

    /// Number of bytes in the buffer
    fn size(&self) -> (r: usize)
        ensures
            r == self.bytes().len(),
    ;

    /// The byte at `i`
    fn byte_at(&self, i: usize) -> (r: u8)
        requires
            i < self.bytes().len(),
        ensures
            r == self.bytes()[i as int],
    ;

    /// Overwrite the byte at `i`
    fn set_byte(&mut self, i: usize, v: u8)
        requires
            i < old(self).bytes().len(),
        ensures
            final(self).bytes() == old(self).bytes().update(i as int, v),
    ;

    /// Request `bytes` more bytes of memory. The implementor is not required to
    /// grant the request. Returns the number of bytes added.
    fn request_memory(&mut self, bytes: usize) -> (r: usize)
        ensures
            r == 0 || r == bytes,
            final(self).bytes().len() == old(self).bytes().len() + r,
            final(self).bytes().subrange(0, old(self).bytes().len() as int) == old(self).bytes(),
            !Self::grows() ==> r == 0,
            Self::grows() && old(self).bytes().len() + bytes <= usize::MAX ==> r == bytes,
    ;
}

impl<const C: usize> LineEditBuffer for [u8; C] {
    open spec fn bytes(&self) -> Seq<u8> {
        self@
    }

    open spec fn grows() -> bool {
        false
    }

    fn size(&self) -> (r: usize) {
        C
    }

    fn byte_at(&self, i: usize) -> (r: u8) {
        self[i]
    }

    fn set_byte(&mut self, i: usize, v: u8) {
        self[i] = v;
    }

    fn request_memory(&mut self, bytes: usize) -> (r: usize) {
        0
    }
}

impl LineEditBuffer for Vec<u8> {
    open spec fn bytes(&self) -> Seq<u8> {
        self@
    }

    open spec fn grows() -> bool {
        true
    }

    fn size(&self) -> (r: usize) {
        self.len()
    }

    fn byte_at(&self, i: usize) -> (r: u8) {
        self[i]
    }

    fn set_byte(&mut self, i: usize, v: u8) {
        self.set(i, v);
    }

    fn request_memory(&mut self, bytes: usize) -> (r: usize) {
        if self.len() > usize::MAX - bytes {
            return 0;
        }
        let ghost start = self@;
        let mut k: usize = 0;
        while k < bytes
            invariant
                k <= bytes,
                start.len() + bytes <= usize::MAX,
                self@.len() == start.len() + k,
                self@.subrange(0, start.len() as int) == start,
            decreases bytes - k,
        {
            self.push(0);
            assert(self@.subrange(0, start.len() as int) =~= start);
            k = k + 1;
        }
        bytes
    }
}

/// The UTF-8 encoding of a character
pub open spec fn char_bytes(c: char) -> Seq<u8> {
    encode_scalar(c as u32)
}

/// The UTF-8 encoding of a character
pub fn encode_char(c: char) -> (r: Vec<u8>)
    ensures
        r@ == char_bytes(c),
        1 <= r@.len() <= 4,
{
    proof {
        char_is_scalar(c);
    }
    let v = c as u32;
    if v <= 0x7f {
        vec![(v & 0x7f) as u8]
    } else if v <= 0x7ff {
        vec![0xc0 | ((v >> 6) & 0x1f) as u8, 0x80 | (v & 0x3f) as u8]
    } else if v <= 0xffff {
        vec![0xe0 | ((v >> 12) & 0x0f) as u8, 0x80 | ((v >> 6) & 0x3f) as u8, 0x80 | (v & 0x3f) as u8]
    } else {
        vec![
            0xf0 | ((v >> 18) & 0x7) as u8,
            0x80 | ((v >> 12) & 0x3f) as u8,
            0x80 | ((v >> 6) & 0x3f) as u8,
            0x80 | (v & 0x3f) as u8,
        ]
    }
}

/// `b` continues a multi-byte character
pub fn is_continuation(b: u8) -> (r: bool)
    ensures
        r == is_continuation_byte(b),
{
    0x80 <= b && b <= 0xbf
}

/// `p` moved back over the continuation bytes that precede it
pub open spec fn rewind(b: Seq<u8>, p: int) -> int
    decreases p,
{
    if p <= 0 || p > b.len() {
        if p <= 0 { 0 } else { p }
    } else if is_continuation_byte(b[p - 1]) {
        rewind(b, p - 1)
    } else {
        p
    }
}

/// Insertion point and count after shifting left by up to `n` characters from
/// `p`, having shifted by `acc` so far: each step moves to the start byte of
/// the previous character
pub open spec fn shift_left_from(b: Seq<u8>, p: int, n: nat, acc: nat) -> (int, nat)
    decreases n,
{
    if n == 0 {
        (p, acc)
    } else {
        let q = rewind(b, p);
        if q > 0 {
            shift_left_from(b, q - 1, (n - 1) as nat, acc + 1)
        } else {
            (0, acc)
        }
    }
}

/// `p` moved forward over the continuation bytes before `len`
pub open spec fn skip_continuation(b: Seq<u8>, len: int, p: int) -> int
    decreases len - p,
{
    if 0 <= p < len && p < b.len() && is_continuation_byte(b[p]) {
        skip_continuation(b, len, p + 1)
    } else {
        p
    }
}

/// Insertion point and count after shifting right by up to `n` characters
/// from `p` within the first `len` bytes, having shifted by `acc` so far
pub open spec fn shift_right_from(b: Seq<u8>, len: int, p: int, n: nat, acc: nat) -> (int, nat)
    decreases n,
{
    if n == 0 || p >= len {
        (p, acc)
    } else {
        shift_right_from(b, len, skip_continuation(b, len, p + 1), (n - 1) as nat, acc + 1)
    }
}

proof fn lemma_rewind_bounds(b: Seq<u8>, p: int)
    requires
        0 <= p <= b.len(),
    ensures
        0 <= rewind(b, p) <= p,
    decreases p,
{
    if p > 0 && is_continuation_byte(b[p - 1]) {
        lemma_rewind_bounds(b, p - 1);
    }
}

proof fn lemma_skip_bounds(b: Seq<u8>, len: int, p: int)
    requires
        0 <= p <= len <= b.len(),
    ensures
        p <= skip_continuation(b, len, p) <= len,
    decreases len - p,
{
    if p < len && is_continuation_byte(b[p]) {
        lemma_skip_bounds(b, len, p + 1);
    }
}

/// Encoding a sequence and one more character appends that character's bytes
pub proof fn lemma_encode_push(s: Seq<char>, c: char)
    ensures
        encode_utf8(s.push(c)) == encode_utf8(s) + char_bytes(c),
    decreases s.len(),
{
    if s.len() == 0 {
        assert(s.push(c).drop_first() =~= Seq::<char>::empty());
        assert(encode_utf8(Seq::<char>::empty()) == Seq::<u8>::empty());
        assert(encode_utf8(s.push(c)) =~= encode_utf8(s) + char_bytes(c));
    } else {
        lemma_encode_push(s.drop_first(), c);
        assert(s.push(c).drop_first() =~= s.drop_first().push(c));
        assert(encode_utf8(s.push(c)) =~= encode_utf8(s) + char_bytes(c));
    }
}

/// The first character of a non-empty string
pub(crate) fn first_char(s: &String) -> (r: char)
    requires
        s@.len() > 0,
    ensures
        r == s@[0],
{
    broadcast use vstd::string::next_postcondition, vstd::string::axiom_spec_iter;

    let mut it = s.as_str().chars();
    match it.next() {
        Some(c) => c,
        None => {
            // Unreachable: the string is not empty
            assert(false);
            ' '
        },
    }
}

/// Width in bytes of the character that starts with `lead`, if `lead` can start one
pub open spec fn lead_width(lead: u8) -> int {
    if is_leading_byte_width_1(lead) {
        1
    } else if is_leading_byte_width_2(lead) {
        2
    } else if is_leading_byte_width_3(lead) {
        3
    } else if is_leading_byte_width_4(lead) {
        4
    } else {
        0
    }
}

pub(crate) proof fn lemma_single_char(v: Seq<u8>)
    requires
        valid_utf8(v),
        v.len() > 0,
        lead_width(v[0]) == v.len(),
    ensures
        decode_utf8(v).len() == 1,
        char_bytes(decode_utf8(v)[0]) == v,
{
    broadcast use decode_utf8_encode_utf8;

    let d = decode_utf8(v);
    assert(length_of_first_scalar(v) == v.len());
    assert(pop_first_scalar(v) =~= Seq::<u8>::empty());
    assert(decode_utf8(Seq::<u8>::empty()) =~= Seq::<char>::empty());
    assert(d =~= seq![decode_first_scalar(v) as char]);
    assert(encode_utf8(d) == v);
    assert(d.drop_first() =~= Seq::<char>::empty());
    assert(encode_utf8(d) =~= char_bytes(d[0]) + encode_utf8(Seq::<char>::empty()));
    assert(encode_utf8(Seq::<char>::empty()) =~= Seq::<u8>::empty());
    assert(char_bytes(d[0]) =~= v);
}

/// `c` has the Unicode `White_Space` property
pub open spec fn is_whitespace_char(c: char) -> bool {
    let v = c as u32;
    (0x9 <= v <= 0xd) || v == 0x20 || v == 0x85 || v == 0xa0 || v == 0x1680 || (0x2000 <= v <= 0x200a)
        || v == 0x2028 || v == 0x2029 || v == 0x202f || v == 0x205f || v == 0x3000
}

/// `c` has the Unicode `White_Space` property
pub fn is_whitespace(c: char) -> (r: bool)
    ensures
        r == is_whitespace_char(c),
{
    let v = c as u32;
    (0x9 <= v && v <= 0xd) || v == 0x20 || v == 0x85 || v == 0xa0 || v == 0x1680 || (0x2000 <= v && v
        <= 0x200a) || v == 0x2028 || v == 0x2029 || v == 0x202f || v == 0x205f || v == 0x3000
}

/// `bytes` starts with the encoding of a whitespace character
pub open spec fn starts_with_whitespace(bytes: Seq<u8>) -> bool {
    exists|c: char|
        is_whitespace_char(c) && char_bytes(c).len() <= bytes.len() && #[trigger] bytes.subrange(
            0,
            char_bytes(c).len() as int,
        ) == char_bytes(c)
}

/// A structure used to build a line editor: UTF-8 text in a byte buffer, and
/// an insertion point. Interpreting key presses is left to the caller.
pub struct LineEditState<T> {
    buffer: T,
    byte_ptr: usize,
    byte_length: usize,
}

impl<T: LineEditBuffer> LineEditState<T> {
    /// Insertion point and length fit the buffer
    pub closed spec fn wf(&self) -> bool {
        &&& self.byte_ptr <= self.byte_length <= self.buffer.bytes().len()
        &&& 0 < self.buffer.bytes().len() <= usize::MAX
    }

    /// Bytes of the text before the insertion point
    pub closed spec fn head_bytes(&self) -> Seq<u8> {
        self.buffer.bytes().subrange(0, self.byte_ptr as int)
    }

    /// Bytes of the text from the insertion point to the end
    pub closed spec fn tail_bytes(&self) -> Seq<u8> {
        self.buffer.bytes().subrange(self.byte_ptr as int, self.byte_length as int)
    }

    /// All bytes of the text
    pub open spec fn text_bytes(&self) -> Seq<u8> {
        self.head_bytes() + self.tail_bytes()
    }

    /// Size of the buffer in bytes
    pub closed spec fn capacity(&self) -> nat {
        self.buffer.bytes().len()
    }

    proof fn lemma_text(&self)
        requires
            self.wf(),
        ensures
            self.text_bytes() == self.buffer.bytes().subrange(0, self.byte_length as int),
            self.text_bytes().len() == self.head_bytes().len() + self.tail_bytes().len(),
            self.head_bytes().len() == self.byte_ptr,
            self.head_bytes() == self.text_bytes().subrange(0, self.byte_ptr as int),
            self.tail_bytes() == self.text_bytes().subrange(self.byte_ptr as int, self.text_bytes().len() as int),
    {
        assert(self.text_bytes() =~= self.buffer.bytes().subrange(0, self.byte_length as int));
        assert(self.head_bytes() =~= self.text_bytes().subrange(0, self.byte_ptr as int));
        assert(self.tail_bytes() =~= self.text_bytes().subrange(self.byte_ptr as int, self.text_bytes().len() as int));
    }

    /// Construct a new state with an empty text over `buffer`
    pub fn from_buffer(buffer: T) -> (r: Self)
        requires
            buffer.bytes().len() > 0,
        ensures
            r.wf(),
            r.head_bytes() == Seq::<u8>::empty(),
            r.tail_bytes() == Seq::<u8>::empty(),
            r.capacity() == buffer.bytes().len(),
    {
        let _ = buffer.size();
        let r = LineEditState { buffer, byte_ptr: 0, byte_length: 0 };
        assert(r.head_bytes() =~= Seq::<u8>::empty());
        assert(r.tail_bytes() =~= Seq::<u8>::empty());
        r
    }

    fn copy_range(&self, start: usize, end: usize) -> (r: Vec<u8>)
        requires
            start <= end <= self.buffer.bytes().len(),
        ensures
            r@ == self.buffer.bytes().subrange(start as int, end as int),
    {
        let mut v: Vec<u8> = Vec::new();
        let mut i = start;
        while i < end
            invariant
                start <= i <= end,
                end <= self.buffer.bytes().len(),
                v@ == self.buffer.bytes().subrange(start as int, i as int),
            decreases end - i,
        {
            v.push(self.buffer.byte_at(i));
            assert(v@ =~= self.buffer.bytes().subrange(start as int, i + 1));
            i = i + 1;
        }
        v
    }

    /// The text, if it is valid UTF-8
    pub fn as_str(&self) -> (r: Result<String, LineEditError>)
        requires
            self.wf(),
        ensures
            r.is_ok() <==> valid_utf8(self.text_bytes()),
            r.is_ok() ==> r.unwrap()@ == decode_utf8(self.text_bytes()),
            r.is_err() ==> r == Err::<String, LineEditError>(LineEditError::Utf8),
    {
        let v = self.copy_range(0, self.byte_length);
        assert(v@ =~= self.text_bytes());
        match string_from_utf8(v) {
            Some(s) => Ok(s),
            None => Err(LineEditError::Utf8),
        }
    }

    /// The text before the insertion point, if it is valid UTF-8
    pub fn head(&self) -> (r: Result<String, LineEditError>)
        requires
            self.wf(),
        ensures
            r.is_ok() <==> valid_utf8(self.head_bytes()),
            r.is_ok() ==> r.unwrap()@ == decode_utf8(self.head_bytes()),
            r.is_err() ==> r == Err::<String, LineEditError>(LineEditError::Utf8),
    {
        let v = self.copy_range(0, self.byte_ptr);
        match string_from_utf8(v) {
            Some(s) => Ok(s),
            None => Err(LineEditError::Utf8),
        }
    }

    /// The text from the insertion point to the end, if it is valid UTF-8
    pub fn tail(&self) -> (r: Result<String, LineEditError>)
        requires
            self.wf(),
        ensures
            r.is_ok() <==> valid_utf8(self.tail_bytes()),
            r.is_ok() ==> r.unwrap()@ == decode_utf8(self.tail_bytes()),
            r.is_err() ==> r == Err::<String, LineEditError>(LineEditError::Utf8),
    {
        let v = self.copy_range(self.byte_ptr, self.byte_length);
        match string_from_utf8(v) {
            Some(s) => Ok(s),
            None => Err(LineEditError::Utf8),
        }
    }

    /// Current length of the text in bytes
    pub fn len(&self) -> (r: usize)
        requires
            self.wf(),
        ensures
            r == self.text_bytes().len(),
    {
        self.byte_length
    }

    /// Returns true if the text is empty
    pub fn is_empty(&self) -> (r: bool)
        requires
            self.wf(),
        ensures
            r == (self.text_bytes().len() == 0),
    {
        self.byte_length == 0
    }

    /// Clear the whole text
    pub fn clear(&mut self)
        requires
            old(self).wf(),
        ensures
            final(self).wf(),
            final(self).head_bytes() == Seq::<u8>::empty(),
            final(self).tail_bytes() == Seq::<u8>::empty(),
            final(self).capacity() == old(self).capacity(),
    {
        self.byte_ptr = 0;
        self.byte_length = 0;
        assert(self.head_bytes() =~= Seq::<u8>::empty());
        assert(self.tail_bytes() =~= Seq::<u8>::empty());
    }

    /// Set the insertion point to the start of the text
    pub fn move_to_start(&mut self)
        requires
            old(self).wf(),
        ensures
            final(self).wf(),
            final(self).head_bytes() == Seq::<u8>::empty(),
            final(self).tail_bytes() == old(self).text_bytes(),
            final(self).capacity() == old(self).capacity(),
    {
        self.byte_ptr = 0;
        assert(self.head_bytes() =~= Seq::<u8>::empty());
        assert(self.tail_bytes() =~= old(self).text_bytes());
    }

    /// Set the insertion point to the end of the text
    pub fn move_to_end(&mut self)
        requires
            old(self).wf(),
        ensures
            final(self).wf(),
            final(self).head_bytes() == old(self).text_bytes(),
            final(self).tail_bytes() == Seq::<u8>::empty(),
            final(self).capacity() == old(self).capacity(),
    {
        self.byte_ptr = self.byte_length;
        assert(self.head_bytes() =~= old(self).text_bytes());
        assert(self.tail_bytes() =~= Seq::<u8>::empty());
    }

    /// Kill the text from the insertion point to the end, and return it
    pub fn kill_to_end(&mut self) -> (r: Result<String, LineEditError>)
        requires
            old(self).wf(),
        ensures
            final(self).wf(),
            final(self).head_bytes() == old(self).head_bytes(),
            final(self).tail_bytes() == Seq::<u8>::empty(),
            final(self).capacity() == old(self).capacity(),
            r.is_ok() <==> valid_utf8(old(self).tail_bytes()),
            r.is_ok() ==> r.unwrap()@ == decode_utf8(old(self).tail_bytes()),
    {
        let killed = self.tail();
        self.byte_length = self.byte_ptr;
        assert(self.tail_bytes() =~= Seq::<u8>::empty());
        killed
    }

    /// Shift the insertion point left by up to `n` characters. Returns the
    /// number of characters shifted by.
    pub fn shift_left(&mut self, n: usize) -> (r: Result<usize, LineEditError>)
        requires
            old(self).wf(),
        ensures
            final(self).wf(),
            final(self).text_bytes() == old(self).text_bytes(),
            final(self).capacity() == old(self).capacity(),
            r.is_ok(),
            (final(self).head_bytes().len() as int, r.unwrap() as nat) == shift_left_from(
                old(self).text_bytes(),
                old(self).head_bytes().len() as int,
                n as nat,
                0,
            ),
    {
        let ghost text = self.text_bytes();
        let ghost b = self.buffer.bytes();
        assert(text =~= b.subrange(0, self.byte_length as int));
        let mut shifted_by: usize = 0;
        let mut i: usize = 0;
        while i < n
            invariant_except_break
                i <= n,
                shifted_by == i,
            invariant
                self.wf(),
                self.buffer == old(self).buffer,
                self.byte_length == old(self).byte_length,
                b == self.buffer.bytes(),
                text == b.subrange(0, self.byte_length as int),
                shifted_by <= n,
                shift_left_from(text, self.byte_ptr as int, (n - shifted_by) as nat, shifted_by as nat)
                    == shift_left_from(text, old(self).byte_ptr as int, n as nat, 0),
            ensures
                self.wf(),
                self.buffer == old(self).buffer,
                self.byte_length == old(self).byte_length,
                (self.byte_ptr as int, shifted_by as nat) == shift_left_from(text, old(self).byte_ptr as int, n as nat, 0),
            decreases n - i,
        {
            let ghost from = self.byte_ptr as int;
            while self.byte_ptr > 0 && is_continuation(self.buffer.byte_at(self.byte_ptr - 1))
                invariant
                    self.wf(),
                    self.buffer == old(self).buffer,
                    self.byte_length == old(self).byte_length,
                    b == self.buffer.bytes(),
                    text == b.subrange(0, self.byte_length as int),
                    0 <= from <= self.byte_length,
                    rewind(text, self.byte_ptr as int) == rewind(text, from),
                decreases self.byte_ptr,
            {
                self.byte_ptr = self.byte_ptr - 1;
            }
            assert(rewind(text, self.byte_ptr as int) == self.byte_ptr as int);
            if self.byte_ptr > 0 {
                self.byte_ptr = self.byte_ptr - 1;
            } else {
                break;
            }
            shifted_by = shifted_by + 1;
            i = i + 1;
        }
        assert(self.text_bytes() =~= text);
        Ok(shifted_by)
    }

    /// Shift the insertion point right by up to `n` characters. Returns the
    /// number of characters shifted by.
    pub fn shift_right(&mut self, n: usize) -> (r: Result<usize, LineEditError>)
        requires
            old(self).wf(),
        ensures
            final(self).wf(),
            final(self).text_bytes() == old(self).text_bytes(),
            final(self).capacity() == old(self).capacity(),
            r.is_ok(),
            (final(self).head_bytes().len() as int, r.unwrap() as nat) == shift_right_from(
                old(self).text_bytes(),
                old(self).text_bytes().len() as int,
                old(self).head_bytes().len() as int,
                n as nat,
                0,
            ),
    {
        let ghost text = self.text_bytes();
        let ghost b = self.buffer.bytes();
        let ghost len = self.byte_length as int;
        assert(text =~= b.subrange(0, self.byte_length as int));
        let mut shifted_by: usize = 0;
        let mut i: usize = 0;
        while i < n
            invariant_except_break
                i <= n,
                shifted_by == i,
            invariant
                self.wf(),
                self.buffer == old(self).buffer,
                self.byte_length == old(self).byte_length,
                len == self.byte_length,
                b == self.buffer.bytes(),
                text == b.subrange(0, self.byte_length as int),
                shifted_by <= n,
                shift_right_from(text, len, self.byte_ptr as int, (n - shifted_by) as nat, shifted_by as nat)
                    == shift_right_from(text, len, old(self).byte_ptr as int, n as nat, 0),
            ensures
                self.wf(),
                self.buffer == old(self).buffer,
                self.byte_length == old(self).byte_length,
                (self.byte_ptr as int, shifted_by as nat) == shift_right_from(text, len, old(self).byte_ptr as int, n as nat, 0),
            decreases n - i,
        {
            if self.byte_ptr < self.byte_length {
                self.byte_ptr = self.byte_ptr + 1;
            } else {
                break;
            }
            let ghost from = self.byte_ptr as int;
            while self.byte_ptr < self.byte_length && is_continuation(self.buffer.byte_at(self.byte_ptr))
                invariant
                    self.wf(),
                    self.buffer == old(self).buffer,
                    self.byte_length == old(self).byte_length,
                    len == self.byte_length,
                    b == self.buffer.bytes(),
                    text == b.subrange(0, self.byte_length as int),
                    0 < from <= self.byte_ptr,
                    skip_continuation(text, len, self.byte_ptr as int) == skip_continuation(text, len, from),
                decreases self.byte_length - self.byte_ptr,
            {
                self.byte_ptr = self.byte_ptr + 1;
            }
            shifted_by = shifted_by + 1;
            i = i + 1;
        }
        assert(self.text_bytes() =~= text);
        Ok(shifted_by)
    }

    /// Insert a character at the insertion point, growing the buffer if it can.
    /// Returns `true` if inserted, or `false` if the buffer is full.
    pub fn insert(&mut self, c: char) -> (r: bool)
        requires
            old(self).wf(),
        ensures
            final(self).wf(),
            final(self).capacity() >= old(self).capacity(),
            old(self).text_bytes().len() + char_bytes(c).len() <= old(self).capacity() ==> final(self).capacity()
                == old(self).capacity(),
            r <==> (old(self).text_bytes().len() + char_bytes(c).len() <= old(self).capacity() || (T::grows()
                && old(self).text_bytes().len() + char_bytes(c).len() <= usize::MAX)),
            r ==> final(self).head_bytes() == old(self).head_bytes() + char_bytes(c),
            r ==> final(self).tail_bytes() == old(self).tail_bytes(),
            !r ==> final(self).head_bytes() == old(self).head_bytes() && final(self).tail_bytes()
                == old(self).tail_bytes() && final(self).capacity() == old(self).capacity(),
    {
        let enc = encode_char(c);
        let w = enc.len();
        if self.byte_length > usize::MAX - w {
            return false;
        }
        let needed = self.byte_length + w;
        let size = self.buffer.size();
        if needed > size {
            let extra = needed - size;
            let got = self.buffer.request_memory(extra);
            if got < extra {
                return false;
            }
            assert(self.head_bytes() =~= old(self).head_bytes());
            assert(self.tail_bytes() =~= old(self).tail_bytes());
        }
        let ghost b0 = self.buffer.bytes();
        let ghost mid = self.head_bytes();
        let ghost tl = self.tail_bytes();
        let ptr = self.byte_ptr;
        let len = self.byte_length;
        let mut i = len;
        while i > ptr
            invariant
                ptr <= i <= len,
                len + w <= b0.len(),
                len + w <= usize::MAX,
                self.byte_ptr == ptr,
                self.byte_length == len,
                self.buffer.bytes().len() == b0.len(),
                forall|j: int|
                    0 <= j < b0.len() ==> #[trigger] self.buffer.bytes()[j] == (if i + w <= j < len + w {
                        b0[j - w]
                    } else {
                        b0[j]
                    }),
            decreases i,
        {
            i = i - 1;
            let byte = self.buffer.byte_at(i);
            self.buffer.set_byte(i + w, byte);
        }
        let mut k: usize = 0;
        while k < w
            invariant
                k <= w,
                w == enc@.len(),
                len + w <= b0.len(),
                len + w <= usize::MAX,
                self.byte_ptr == ptr,
                self.byte_length == len,
                ptr <= len,
                self.buffer.bytes().len() == b0.len(),
                forall|j: int|
                    0 <= j < b0.len() ==> #[trigger] self.buffer.bytes()[j] == (if ptr <= j < ptr + k {
                        enc@[j - ptr]
                    } else if ptr + w <= j < len + w {
                        b0[j - w]
                    } else {
                        b0[j]
                    }),
            decreases w - k,
        {
            self.buffer.set_byte(ptr + k, enc[k]);
            k = k + 1;
        }
        self.byte_ptr = ptr + w;
        self.byte_length = len + w;
        assert(self.head_bytes() =~= mid + char_bytes(c));
        assert(self.tail_bytes() =~= tl);
        true
    }

    /// Insert characters one by one until the buffer is full. Returns the
    /// number of characters inserted.
    pub fn insert_many(&mut self, chars: Chars) -> (r: usize)
        requires
            old(self).wf(),
            chars.decrease() is Some,
            chars.remaining().len() <= usize::MAX,
        ensures
            final(self).wf(),
            final(self).capacity() >= old(self).capacity(),
            r <= chars.remaining().len(),
            final(self).head_bytes() == old(self).head_bytes() + encode_utf8(chars.remaining().subrange(0, r as int)),
            final(self).tail_bytes() == old(self).tail_bytes(),
            r < chars.remaining().len() ==> !(final(self).text_bytes().len() + char_bytes(chars.remaining()[r as int]).len()
                <= final(self).capacity() || (T::grows() && final(self).text_bytes().len()
                + char_bytes(chars.remaining()[r as int]).len() <= usize::MAX)),
    {
        broadcast use vstd::string::next_postcondition;

        let ghost all = chars.remaining();
        let mut it = chars;
        let mut count: usize = 0;
        assert(all.subrange(0, 0) =~= Seq::<char>::empty());
        assert(self.head_bytes() =~= old(self).head_bytes() + encode_utf8(all.subrange(0, 0)));
        loop
            invariant_except_break
                it.obeys_prophetic_iter_laws(),
                it.decrease() is Some,
                it.remaining() == all.subrange(count as int, all.len() as int),
            invariant
                self.wf(),
                self.capacity() >= old(self).capacity(),
                all.len() <= usize::MAX,
                count <= all.len(),
                self.head_bytes() == old(self).head_bytes() + encode_utf8(all.subrange(0, count as int)),
                self.tail_bytes() == old(self).tail_bytes(),
            ensures
                self.wf(),
                self.capacity() >= old(self).capacity(),
                count <= all.len(),
                self.head_bytes() == old(self).head_bytes() + encode_utf8(all.subrange(0, count as int)),
                self.tail_bytes() == old(self).tail_bytes(),
                count < all.len() ==> !(self.text_bytes().len() + char_bytes(all[count as int]).len()
                    <= self.capacity() || (T::grows() && self.text_bytes().len()
                    + char_bytes(all[count as int]).len() <= usize::MAX)),
            decreases it.decrease()->0,
        {
            let ghost before = it.remaining();
            match it.next() {
                Some(c) => {
                    assert(before.len() > 0);
                    assert(c == all[count as int]);
                    if !self.insert(c) {
                        break;
                    }
                    proof {
                        lemma_encode_push(all.subrange(0, count as int), c);
                        assert(all.subrange(0, count as int).push(c) =~= all.subrange(0, count + 1));
                    }
                    assert(it.remaining() =~= all.subrange(count + 1, all.len() as int));
                    count = count + 1;
                },
                None => {
                    break;
                },
            }
        }
        count
    }

    /// The character at the insertion point: `None` at the end of the text, an
    /// error if the bytes there do not form a character
    fn current_char(&self) -> (r: Result<Option<char>, LineEditError>)
        requires
            self.wf(),
        ensures
            r == Ok::<Option<char>, LineEditError>(None) <==> self.tail_bytes().len() == 0,
            r.is_ok() && r.unwrap().is_some() ==> char_bytes(r.unwrap().unwrap()).len() <= self.tail_bytes().len()
                && self.tail_bytes().subrange(0, char_bytes(r.unwrap().unwrap()).len() as int) == char_bytes(r.unwrap().unwrap()),
            valid_utf8(self.tail_bytes()) ==> r.is_ok(),
    {
        if self.byte_ptr == self.byte_length {
            return Ok(None);
        }
        let ghost tl = self.tail_bytes();
        proof {
            if valid_utf8(tl) {
                assert(tl.len() > 0);
                assert(tl[0] == self.buffer.bytes()[self.byte_ptr as int]);
                assert(valid_first_scalar(tl));
                let w = length_of_first_scalar(tl);
                reveal_with_fuel(is_char_boundary, 2);
                assert(is_char_boundary(tl, w));
                valid_utf8_split(tl, w);
            }
        }
        let lead = self.buffer.byte_at(self.byte_ptr);
        let w: usize = if lead <= 0x7f {
            1
        } else if 0xc0 <= lead && lead <= 0xdf {
            2
        } else if 0xe0 <= lead && lead <= 0xef {
            3
        } else if 0xf0 <= lead && lead <= 0xf7 {
            4
        } else {
            return Err(LineEditError::Generic);
        };
        if w > self.byte_length - self.byte_ptr {
            return Err(LineEditError::Generic);
        }
        let v = self.copy_range(self.byte_ptr, self.byte_ptr + w);
        let ghost vb = v@;
        assert(vb =~= self.tail_bytes().subrange(0, w as int));
        match string_from_utf8(v) {
            Some(s) => {
                proof {
                    lemma_single_char(vb);
                }
                Ok(Some(first_char(&s)))
            },
            None => Err(LineEditError::Utf8),
        }
    }

    /// Delete the character at the insertion point. Returns it, or `None` at
    /// the end of the text
    pub fn delete_current(&mut self) -> (r: Result<Option<char>, LineEditError>)
        requires
            old(self).wf(),
        ensures
            final(self).wf(),
            final(self).capacity() == old(self).capacity(),
            final(self).head_bytes() == old(self).head_bytes(),
            r == Ok::<Option<char>, LineEditError>(None) <==> old(self).tail_bytes().len() == 0,
            valid_utf8(old(self).tail_bytes()) ==> r.is_ok(),
            r.is_ok() && r.unwrap().is_some() ==> old(self).tail_bytes() == char_bytes(r.unwrap().unwrap())
                + final(self).tail_bytes(),
            !(r.is_ok() && r.unwrap().is_some()) ==> final(self).tail_bytes() == old(self).tail_bytes(),
    {
        let c = match self.current_char() {
            Ok(Some(c)) => c,
            Ok(None) => return Ok(None),
            Err(e) => return Err(e),
        };
        let w = encode_char(c).len();
        let ghost b0 = self.buffer.bytes();
        let ghost tl = self.tail_bytes();
        let ptr = self.byte_ptr;
        let len = self.byte_length;
        let mut i = ptr;
        while i < len - w
            invariant
                ptr <= i <= len - w,
                w <= len - ptr,
                len <= b0.len(),
                self.byte_ptr == ptr,
                self.byte_length == len,
                self.buffer.bytes().len() == b0.len(),
                forall|j: int|
                    0 <= j < b0.len() ==> #[trigger] self.buffer.bytes()[j] == (if ptr <= j < i {
                        b0[j + w]
                    } else {
                        b0[j]
                    }),
            decreases len - w - i,
        {
            let byte = self.buffer.byte_at(i + w);
            self.buffer.set_byte(i, byte);
            i = i + 1;
        }
        self.byte_length = len - w;
        assert(self.head_bytes() =~= old(self).head_bytes());
        assert(tl =~= char_bytes(c) + self.tail_bytes());
        Ok(Some(c))
    }

    /// Delete the character before the insertion point. Returns it, or `None`
    /// at the start of the text
    pub fn delete_prev(&mut self) -> (r: Result<Option<char>, LineEditError>)
        requires
            old(self).wf(),
        ensures
            final(self).wf(),
            final(self).capacity() == old(self).capacity(),
            ({
                let (p, k) = shift_left_from(old(self).text_bytes(), old(self).head_bytes().len() as int, 1, 0);
                &&& final(self).head_bytes() == old(self).text_bytes().subrange(0, p)
                &&& (k == 0 ==> r == Ok::<Option<char>, LineEditError>(None) && final(self).text_bytes() == old(self).text_bytes())
                &&& (r.is_ok() && r.unwrap().is_some() ==> k == 1 && old(self).text_bytes() == final(self).head_bytes()
                    + char_bytes(r.unwrap().unwrap()) + final(self).tail_bytes())
                &&& (!(r.is_ok() && r.unwrap().is_some()) ==> final(self).text_bytes() == old(self).text_bytes())
            }),
    {
        let moved = self.shift_left(1);
        proof {
            reveal_with_fuel(shift_left_from, 2);
        }
        let ghost mid = self.text_bytes();
        assert(self.head_bytes() =~= old(self).text_bytes().subrange(0, self.byte_ptr as int));
        match moved {
            Ok(0) => Ok(None),
            _ => {
                let r = self.delete_current();
                proof {
                    if r.is_ok() && r.unwrap().is_some() {
                        assert(mid =~= self.head_bytes() + char_bytes(r.unwrap().unwrap()) + self.tail_bytes());
                    }
                }
                r
            },
        }
    }

    /// Set the insertion point past the end of the current word, or of the
    /// next word when not on one
    pub fn move_past_end_of_word(&mut self) -> (r: Result<(), LineEditError>)
        requires
            old(self).wf(),
        ensures
            final(self).wf(),
            final(self).text_bytes() == old(self).text_bytes(),
            final(self).capacity() == old(self).capacity(),
            final(self).head_bytes().len() >= old(self).head_bytes().len(),
            r.is_ok() ==> final(self).tail_bytes().len() == 0 || starts_with_whitespace(final(self).tail_bytes()),
    {
        // Move to start of next word
        loop
            invariant
                self.wf(),
                self.text_bytes() == old(self).text_bytes(),
                self.capacity() == old(self).capacity(),
                self.head_bytes().len() >= old(self).head_bytes().len(),
            decreases self.tail_bytes().len(),
        {
            match self.current_char()? {
                Some(c) => {
                    if is_whitespace(c) {
                        self.step_right();
                    } else {
                        break;
                    }
                },
                None => return Ok(()),
            }
        }
        // Move to end of current word
        loop
            invariant
                self.wf(),
                self.text_bytes() == old(self).text_bytes(),
                self.capacity() == old(self).capacity(),
                self.head_bytes().len() >= old(self).head_bytes().len(),
            decreases self.tail_bytes().len(),
        {
            match self.current_char()? {
                Some(c) => {
                    if is_whitespace(c) {
                        return Ok(());
                    }
                    self.step_right();
                },
                None => return Ok(()),
            }
        }
    }

    /// Shift right by one character when the tail is not empty
    fn step_right(&mut self)
        requires
            old(self).wf(),
            old(self).tail_bytes().len() > 0,
        ensures
            final(self).wf(),
            final(self).text_bytes() == old(self).text_bytes(),
            final(self).capacity() == old(self).capacity(),
            final(self).head_bytes().len() > old(self).head_bytes().len(),
            final(self).tail_bytes().len() < old(self).tail_bytes().len(),
    {
        let ghost text = self.text_bytes();
        proof {
            old(self).lemma_text();
        }
        let _ = self.shift_right(1);
        proof {
            self.lemma_text();
            reveal_with_fuel(shift_right_from, 2);
            lemma_skip_bounds(text, text.len() as int, old(self).head_bytes().len() + 1int);
        }
    }

    /// Shift left by one character when the head is not empty
    fn step_left(&mut self)
        requires
            old(self).wf(),
            old(self).head_bytes().len() > 0,
        ensures
            final(self).wf(),
            final(self).text_bytes() == old(self).text_bytes(),
            final(self).capacity() == old(self).capacity(),
            final(self).head_bytes().len() < old(self).head_bytes().len(),
    {
        let ghost text = self.text_bytes();
        let ghost p = old(self).head_bytes().len() as int;
        let _ = self.shift_left(1);
        proof {
            reveal_with_fuel(shift_left_from, 2);
            lemma_rewind_bounds(text, p);
        }
    }

    /// Set the insertion point to the start of the previous word
    pub fn move_to_prev_start_of_word(&mut self) -> (r: Result<(), LineEditError>)
        requires
            old(self).wf(),
        ensures
            final(self).wf(),
            final(self).text_bytes() == old(self).text_bytes(),
            final(self).capacity() == old(self).capacity(),
            final(self).head_bytes().len() <= old(self).head_bytes().len(),
            old(self).head_bytes().len() > 0 ==> final(self).head_bytes().len() < old(self).head_bytes().len(),
    {
        // We may be already at a start-of-word, so move back
        if self.byte_ptr == 0 {
            return Ok(());
        }
        self.step_left();
        // Cycle through whitespace
        loop
            invariant
                self.wf(),
                self.text_bytes() == old(self).text_bytes(),
                self.capacity() == old(self).capacity(),
                self.head_bytes().len() < old(self).head_bytes().len(),
            decreases self.head_bytes().len(),
        {
            match self.current_char()? {
                Some(c) => {
                    if is_whitespace(c) && self.byte_ptr > 0 {
                        self.step_left();
                    } else if is_whitespace(c) {
                        return Ok(());
                    } else {
                        break;
                    }
                },
                None => return Ok(()),
            }
        }
        // Cycle through non-whitespace
        let mut word_start = self.byte_ptr;
        while self.byte_ptr > 0
            invariant
                self.wf(),
                self.text_bytes() == old(self).text_bytes(),
                self.capacity() == old(self).capacity(),
                self.head_bytes().len() < old(self).head_bytes().len(),
                self.byte_ptr <= word_start < old(self).head_bytes().len(),
            decreases self.head_bytes().len(),
        {
            match self.current_char()? {
                Some(c) => {
                    if !is_whitespace(c) {
                        word_start = self.byte_ptr;
                        self.step_left();
                    } else {
                        // We moved past the start-of-word: go back to it
                        proof {
                            self.lemma_text();
                        }
                        self.byte_ptr = word_start;
                        proof {
                            self.lemma_text();
                        }
                        return Ok(());
                    }
                },
                None => return Ok(()),
            }
        }
        // First character
        Ok(())
    }

    /// Remove the bytes from `start` to the insertion point; the insertion
    /// point moves to `start`. Returns the removed bytes.
    fn delete_before(&mut self, start: usize) -> (r: Vec<u8>)
        requires
            old(self).wf(),
            start <= old(self).head_bytes().len(),
        ensures
            final(self).wf(),
            final(self).capacity() == old(self).capacity(),
            final(self).head_bytes() == old(self).head_bytes().subrange(0, start as int),
            final(self).tail_bytes() == old(self).tail_bytes(),
            r@ == old(self).head_bytes().subrange(start as int, old(self).head_bytes().len() as int),
    {
        let end = self.byte_ptr;
        let len = self.byte_length;
        let killed = self.copy_range(start, end);
        let w = end - start;
        let ghost b0 = self.buffer.bytes();
        let mut i = start;
        while i < len - w
            invariant
                start <= i <= len - w,
                w == end - start,
                end <= len,
                len <= b0.len(),
                self.byte_ptr == end,
                self.byte_length == len,
                self.buffer.bytes().len() == b0.len(),
                forall|j: int|
                    0 <= j < b0.len() ==> #[trigger] self.buffer.bytes()[j] == (if start <= j < i {
                        b0[j + w]
                    } else {
                        b0[j]
                    }),
            decreases len - w - i,
        {
            let byte = self.buffer.byte_at(i + w);
            self.buffer.set_byte(i, byte);
            i = i + 1;
        }
        self.byte_ptr = start;
        self.byte_length = len - w;
        assert(self.head_bytes() =~= old(self).head_bytes().subrange(0, start as int));
        assert(self.tail_bytes() =~= old(self).tail_bytes());
        killed
    }

    /// Kill the previous word, with the whitespace after it, and return it
    pub fn kill_prev_word(&mut self) -> (r: Result<String, LineEditError>)
        requires
            old(self).wf(),
        ensures
            final(self).wf(),
            final(self).capacity() == old(self).capacity(),
            final(self).tail_bytes() == old(self).tail_bytes(),
            r.is_ok() ==> old(self).head_bytes() == final(self).head_bytes() + encode_utf8(r.unwrap()@),
            r.is_err() ==> final(self).head_bytes() == old(self).head_bytes(),
    {
        let end = self.byte_ptr;
        let ghost text = self.text_bytes();
        let mut seen_word = false;
        loop
            invariant
                self.wf(),
                self.text_bytes() == text,
                text == old(self).text_bytes(),
                self.capacity() == old(self).capacity(),
                self.byte_ptr <= end,
                end == old(self).head_bytes().len(),
            decreases self.byte_ptr,
        {
            if self.byte_ptr == 0 {
                break;
            }
            let here = self.byte_ptr;
            self.step_left();
            match self.current_char() {
                Ok(Some(c)) => {
                    if is_whitespace(c) {
                        if seen_word {
                            proof {
                                self.lemma_text();
                            }
                            self.byte_ptr = here;
                            proof {
                                self.lemma_text();
                            }
                            break;
                        }
                    } else {
                        seen_word = true;
                    }
                },
                _ => {
                    proof {
                        self.lemma_text();
                    }
                    self.byte_ptr = end;
                    proof {
                        self.lemma_text();
                        assert(self.head_bytes() =~= old(self).head_bytes());
                    }
                    return Err(LineEditError::Generic);
                },
            }
        }
        let start = self.byte_ptr;
        proof {
            self.lemma_text();
            old(self).lemma_text();
        }
        self.byte_ptr = end;
        proof {
            self.lemma_text();
            assert(self.head_bytes() =~= old(self).head_bytes());
            assert(self.tail_bytes() =~= old(self).tail_bytes());
        }
        let ghost before = self.head_bytes();
        let copy = self.copy_range(start, end);
        assert(copy@ =~= before.subrange(start as int, end as int));
        match string_from_utf8(copy) {
            Some(text) => {
                let killed = self.delete_before(start);
                proof {
                    vstd::utf8::decode_utf8_encode_utf8(killed@);
                    assert(before =~= self.head_bytes() + killed@);
                }
                Ok(text)
            },
            None => Err(LineEditError::Utf8),
        }
    }

    /// Swap the character before the insertion point with the one at it (at
    /// the end of the text, the last two characters), moving the insertion
    /// point past both
    pub fn transpose_chars(&mut self) -> (r: Result<(), LineEditError>)
        requires
            old(self).wf(),
        ensures
            final(self).wf(),
            final(self).capacity() == old(self).capacity(),
            final(self).text_bytes().len() == old(self).text_bytes().len(),
            old(self).head_bytes().len() == 0 ==> final(self).head_bytes() == old(self).head_bytes()
                && final(self).tail_bytes() == old(self).tail_bytes(),
    {
        if self.byte_ptr == 0 {
            return Ok(());
        }
        proof {
            self.lemma_text();
        }
        // Cursor at end is a slight special case
        if self.byte_ptr == self.byte_length {
            self.step_left();
        }
        if self.byte_ptr > 0 {
            self.step_left();
        }
        proof {
            self.lemma_text();
        }
        let ghost len0 = self.text_bytes().len();
        let c = match self.delete_current() {
            Ok(c) => c,
            Err(e) => {
                proof {
                    self.lemma_text();
                }
                return Err(e);
            },
        };
        proof {
            self.lemma_text();
        }
        if self.byte_ptr < self.byte_length {
            self.step_right();
        }
        proof {
            self.lemma_text();
        }
        if let Some(c) = c {
            let inserted = self.insert(c);
            assert(inserted);
            proof {
                self.lemma_text();
            }
        }
        Ok(())
    }
}

} // verus!
