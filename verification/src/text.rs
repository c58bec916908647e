//! Fixed-capacity text buffers and the compact, `|`-separated text format the
//! HTTP endpoints answer with.

use vstd::prelude::*;
use vstd::string::*;
use vstd::utf8::*;

verus! {

/// Every byte is a 7-bit ASCII code.
pub open spec fn is_ascii_bytes(b: Seq<u8>) -> bool {
    forall|i: int| 0 <= i < b.len() ==> #[trigger] b[i] < 128
}

/// ASCII text is valid UTF-8.
pub proof fn lemma_ascii_valid_utf8(b: Seq<u8>)
    requires
        is_ascii_bytes(b),
    ensures
        valid_utf8(b),
{
    let chars = Seq::new(b.len(), |i: int| b[i] as char);
    assert(is_ascii_chars(chars)) by {
        assert forall|i: int| 0 <= i < chars.len() implies '\0' <= #[trigger] chars[i] <= '\u{7f}' by {
            assert(b[i] < 128);
        }
    }
    is_ascii_chars_encode_utf8(chars);
    assert forall|i: int| 0 <= i < b.len() implies #[trigger] encode_utf8(chars)[i] == b[i] by {
        let x = b[i];
        assert(chars[i] == x as char);
        assert(((x as char) as u8) == x);
    }
    assert(encode_utf8(chars) =~= b);
    encode_utf8_valid_utf8(chars);
}

/// `std::str::from_utf8`: the bytes as a string slice exactly when they are
/// valid UTF-8.
#[verifier::external_body]
pub(crate) fn str_from_utf8(bytes: &[u8]) -> (r: Option<&str>)
    ensures
        r is Some <==> valid_utf8(bytes@),
        r matches Some(s) ==> s.spec_bytes() == bytes@,
{
    core::str::from_utf8(bytes).ok()
}

/// Appends `bytes` to `out`.
pub fn push_all(out: &mut Vec<u8>, bytes: &[u8])
    ensures
        final(out)@ == old(out)@ + bytes@,
{
    let mut i: usize = 0;
    while i < bytes.len()
        invariant
            i <= bytes@.len(),
            out@ == old(out)@ + bytes@.subrange(0, i as int),
        decreases bytes@.len() - i,
    {
        out.push(bytes[i]);
        i = i + 1;
        assert(bytes@.subrange(0, i as int) =~= bytes@.subrange(0, i - 1) + seq![bytes@[i - 1]]);
    }
    assert(bytes@.subrange(0, bytes@.len() as int) =~= bytes@);
}

/// Appends the UTF-8 bytes of `s`.
pub fn push_str(out: &mut Vec<u8>, s: &str)
    ensures
        final(out)@ == old(out)@ + s.spec_bytes(),
{
    push_all(out, s.as_bytes());
}

/// The UTF-8 bytes of an ASCII string are its characters, one byte each.
pub proof fn lemma_ascii_str(s: &str)
    requires
        is_ascii(s),
    ensures
        is_ascii_bytes(s.spec_bytes()),
        s.spec_bytes().len() == s@.len(),
        forall|i: int| 0 <= i < s@.len() ==> #[trigger] s.spec_bytes()[i] == s@[i] as u8,
{
    is_ascii_spec_bytes(s);
    assert forall|i: int| 0 <= i < s.spec_bytes().len() implies #[trigger] s.spec_bytes()[i] < 128 by {
        assert('\0' <= s@[i] <= '\u{7f}');
    }
}

/// Decimal digits of `n`, most significant first, without leading zeros.
pub open spec fn decimal(n: nat) -> Seq<u8>
    decreases n,
{
    if n < 10 {
        seq![(48 + n) as u8]
    } else {
        decimal(n / 10) + seq![(48 + n % 10) as u8]
    }
}

/// Decimal text is digits only.
pub proof fn lemma_decimal_ascii(n: nat)
    ensures
        is_ascii_bytes(decimal(n)),
        decimal(n).len() >= 1,
        forall|i: int| 0 <= i < decimal(n).len() ==> 48 <= #[trigger] decimal(n)[i] <= 57,
    decreases n,
{
    if n >= 10 {
        lemma_decimal_ascii(n / 10);
        let d = decimal(n);
        let h = decimal(n / 10);
        assert forall|i: int| 0 <= i < d.len() implies 48 <= #[trigger] d[i] <= 57 by {
            if i < h.len() {
                assert(d[i] == h[i]);
            }
        }
    }
}

/// `10^k`.
pub open spec fn pow10(k: nat) -> nat
    decreases k,
{
    if k == 0 { 1 } else { 10 * pow10((k - 1) as nat) }
}

/// A number below `10^k` has at most `k` decimal digits.
pub proof fn lemma_decimal_len(n: nat, k: nat)
    requires
        1 <= k,
        n < pow10(k),
    ensures
        decimal(n).len() <= k,
    decreases n,
{
    if n >= 10 {
        if k == 1 {
            assert(pow10(1) == 10) by { reveal_with_fuel(pow10, 2); }
        }
        assert(n / 10 < pow10((k - 1) as nat));
        lemma_decimal_len(n / 10, (k - 1) as nat);
    }
}

/// The decimal texts of a `u8`, a `u16` and a `u32` take at most three, five
/// and ten digits.
pub proof fn lemma_decimal_len_of_width(n: nat)
    ensures
        n < 0x100 ==> decimal(n).len() <= 3,
        n < 0x10000 ==> decimal(n).len() <= 5,
        n < 0x1_0000_0000 ==> decimal(n).len() <= 10,
{
    assert(pow10(3) == 1000 && pow10(5) == 100000 && pow10(10) == 10000000000) by {
        reveal_with_fuel(pow10, 11);
    }
    if n < 0x100 {
        lemma_decimal_len(n, 3);
    }
    if n < 0x10000 {
        lemma_decimal_len(n, 5);
    }
    if n < 0x1_0000_0000 {
        lemma_decimal_len(n, 10);
    }
}

/// Appends the decimal text of `n`.
pub fn push_decimal(out: &mut Vec<u8>, n: u128)
    ensures
        final(out)@ == old(out)@ + decimal(n as nat),
    decreases n,
{
    if n >= 10 {
        push_decimal(out, n / 10);
    }
    let digit: u8 = (n % 10) as u8;
    out.push(48u8 + digit);
    assert(out@ =~= old(out)@ + decimal(n as nat));
}

/// A value with a compact text form: numbers in decimal, `bool` as `1`/`0`,
/// a missing value as `/`, array items joined with `;`. The text is ASCII.
pub trait CompactFormat {
    spec fn compact_text(&self) -> Seq<u8>;

    /// Appends the compact text of `self` to `out`.
    fn compact_format(&self, out: &mut Vec<u8>)
        ensures
            final(out)@ == old(out)@ + self.compact_text(),
            is_ascii_bytes(self.compact_text()),
    ;

    fn into_compact_format(self) -> (r: CompactFormatWrapper<Self>)
        where Self: Sized,
        ensures
            r.inner() == self,
    {
        CompactFormatWrapper(self)
    }
}

/// A value that is rendered through its compact text form.
pub struct CompactFormatWrapper<T>(T);

impl<T> CompactFormatWrapper<T> {
    pub closed spec fn inner(&self) -> T {
        self.0
    }
}

impl<T: CompactFormat> CompactFormatWrapper<T> {
    /// The compact text of the wrapped value.
    pub fn text(&self) -> (r: Vec<u8>)
        ensures
            r@ == self.inner().compact_text(),
            is_ascii_bytes(r@),
    {
        let mut out: Vec<u8> = Vec::new();
        self.0.compact_format(&mut out);
        assert(out@ =~= self.inner().compact_text());
        out
    }
}

impl CompactFormat for u8 {
    open spec fn compact_text(&self) -> Seq<u8> {
        decimal(*self as nat)
    }

    fn compact_format(&self, out: &mut Vec<u8>) {
        proof { lemma_decimal_ascii(*self as nat); }
        push_decimal(out, *self as u128);
    }
}

impl CompactFormat for u16 {
    open spec fn compact_text(&self) -> Seq<u8> {
        decimal(*self as nat)
    }

    fn compact_format(&self, out: &mut Vec<u8>) {
        proof { lemma_decimal_ascii(*self as nat); }
        push_decimal(out, *self as u128);
    }
}

impl CompactFormat for u32 {
    open spec fn compact_text(&self) -> Seq<u8> {
        decimal(*self as nat)
    }

    fn compact_format(&self, out: &mut Vec<u8>) {
        proof { lemma_decimal_ascii(*self as nat); }
        push_decimal(out, *self as u128);
    }
}

impl CompactFormat for u64 {
    open spec fn compact_text(&self) -> Seq<u8> {
        decimal(*self as nat)
    }

    fn compact_format(&self, out: &mut Vec<u8>) {
        proof { lemma_decimal_ascii(*self as nat); }
        push_decimal(out, *self as u128);
    }
}

impl CompactFormat for u128 {
    open spec fn compact_text(&self) -> Seq<u8> {
        decimal(*self as nat)
    }

    fn compact_format(&self, out: &mut Vec<u8>) {
        proof { lemma_decimal_ascii(*self as nat); }
        push_decimal(out, *self);
    }
}

/// Decimal text of a signed number: `-` before the digits of a negative one.
pub open spec fn signed_decimal(n: int) -> Seq<u8> {
    if n < 0 { seq![45u8] + decimal((-n) as nat) } else { decimal(n as nat) }
}

/// Appends the decimal text of `n`.
pub fn push_signed_decimal(out: &mut Vec<u8>, n: i128)
    ensures
        final(out)@ == old(out)@ + signed_decimal(n as int),
        is_ascii_bytes(signed_decimal(n as int)),
{
    proof { lemma_decimal_ascii((if n < 0 { -n } else { n as int }) as nat); }
    if n < 0 {
        out.push(45u8);
        let magnitude: u128 = ((-(n + 1)) as u128) + 1;
        let ghost mid = out@;
        push_decimal(out, magnitude);
        assert(out@ =~= old(out)@ + signed_decimal(n as int));
        assert forall|i: int| 0 <= i < signed_decimal(n as int).len() implies #[trigger] signed_decimal(n as int)[i] < 128 by {
            if i > 0 {
                assert(signed_decimal(n as int)[i] == decimal((-n) as nat)[i - 1]);
            }
        }
    } else {
        push_decimal(out, n as u128);
    }
}

impl CompactFormat for i8 {
    open spec fn compact_text(&self) -> Seq<u8> {
        signed_decimal(*self as int)
    }

    fn compact_format(&self, out: &mut Vec<u8>) {
        push_signed_decimal(out, *self as i128);
    }
}

impl CompactFormat for i16 {
    open spec fn compact_text(&self) -> Seq<u8> {
        signed_decimal(*self as int)
    }

    fn compact_format(&self, out: &mut Vec<u8>) {
        push_signed_decimal(out, *self as i128);
    }
}

impl CompactFormat for i32 {
    open spec fn compact_text(&self) -> Seq<u8> {
        signed_decimal(*self as int)
    }

    fn compact_format(&self, out: &mut Vec<u8>) {
        push_signed_decimal(out, *self as i128);
    }
}

impl CompactFormat for i64 {
    open spec fn compact_text(&self) -> Seq<u8> {
        signed_decimal(*self as int)
    }

    fn compact_format(&self, out: &mut Vec<u8>) {
        push_signed_decimal(out, *self as i128);
    }
}

impl CompactFormat for i128 {
    open spec fn compact_text(&self) -> Seq<u8> {
        signed_decimal(*self as int)
    }

    fn compact_format(&self, out: &mut Vec<u8>) {
        push_signed_decimal(out, *self);
    }
}

/// Upper-case hexadecimal digit of `d` (below 16).
pub open spec fn hex_digit(d: u8) -> u8 {
    if d < 10 { (48 + d) as u8 } else { (55 + d) as u8 }
}

/// Each byte as two upper-case hexadecimal digits.
pub open spec fn hex_text(bytes: Seq<u8>) -> Seq<u8>
    decreases bytes.len(),
{
    if bytes.len() == 0 {
        Seq::empty()
    } else {
        hex_text(bytes.drop_last()) + seq![hex_digit(bytes.last() / 16), hex_digit(bytes.last() % 16)]
    }
}

pub proof fn lemma_hex_text_ascii(bytes: Seq<u8>)
    ensures
        is_ascii_bytes(hex_text(bytes)),
        hex_text(bytes).len() == 2 * bytes.len(),
    decreases bytes.len(),
{
    if bytes.len() > 0 {
        lemma_hex_text_ascii(bytes.drop_last());
        let a = hex_text(bytes.drop_last());
        let t = hex_text(bytes);
        assert forall|i: int| 0 <= i < t.len() implies #[trigger] t[i] < 128 by {
            if i < a.len() {
                assert(t[i] == a[i]);
            }
        }
    }
}

impl CompactFormat for [u8] {
    open spec fn compact_text(&self) -> Seq<u8> {
        hex_text(self@)
    }

    fn compact_format(&self, out: &mut Vec<u8>) {
        proof { lemma_hex_text_ascii(self@); }
        let ghost start = out@;
        let mut i: usize = 0;
        while i < self.len()
            invariant
                i <= self@.len(),
                out@ == start + hex_text(self@.subrange(0, i as int)),
            decreases self@.len() - i,
        {
            let b = self[i];
            let high = b / 16;
            let low = b % 16;
            out.push(if high < 10 { 48 + high } else { 55 + high });
            out.push(if low < 10 { 48 + low } else { 55 + low });
            assert(self@.subrange(0, i + 1).drop_last() =~= self@.subrange(0, i as int));
            i = i + 1;
            assert(out@ =~= start + hex_text(self@.subrange(0, i as int)));
        }
        assert(self@.subrange(0, self@.len() as int) =~= self@);
    }
}

impl CompactFormat for bool {
    open spec fn compact_text(&self) -> Seq<u8> {
        if *self { seq![49u8] } else { seq![48u8] }
    }

    fn compact_format(&self, out: &mut Vec<u8>) {
        if *self {
            out.push(49u8);
        } else {
            out.push(48u8);
        }
    }
}

/// The text of a missing value: `/`.
pub open spec fn absent_text() -> Seq<u8> {
    seq![47u8]
}

impl<T: CompactFormat> CompactFormat for Option<T> {
    open spec fn compact_text(&self) -> Seq<u8> {
        match self {
            Some(v) => v.compact_text(),
            None => absent_text(),
        }
    }

    fn compact_format(&self, out: &mut Vec<u8>) {
        match self {
            Some(v) => v.compact_format(out),
            None => out.push(47u8),
        }
    }
}

/// Item texts joined with `;`.
pub open spec fn joined<T: CompactFormat>(items: Seq<T>) -> Seq<u8>
    decreases items.len(),
{
    if items.len() == 0 {
        Seq::empty()
    } else if items.len() == 1 {
        items[0].compact_text()
    } else {
        joined(items.drop_last()) + seq![59u8] + items.last().compact_text()
    }
}

impl<T: CompactFormat, const N: usize> CompactFormat for [T; N] {
    open spec fn compact_text(&self) -> Seq<u8> {
        joined(self@)
    }

    fn compact_format(&self, out: &mut Vec<u8>) {
        let ghost start = out@;
        let mut i: usize = 0;
        while i < N
            invariant
                i <= N,
                self@.len() == N,
                out@ == start + joined(self@.subrange(0, i as int)),
                is_ascii_bytes(joined(self@.subrange(0, i as int))),
            decreases N - i,
        {
            let ghost before = out@;
            if i > 0 {
                out.push(59u8);
            }
            self[i].compact_format(out);
            let ghost item = self@[i as int].compact_text();
            assert(self@.subrange(0, i + 1).drop_last() =~= self@.subrange(0, i as int));
            assert(self@.subrange(0, i + 1).last() == self@[i as int]);
            if i == 0 {
                assert(joined(self@.subrange(0, 1)) == item);
                assert(out@ =~= start + joined(self@.subrange(0, i + 1)));
            } else {
                assert(out@ =~= start + joined(self@.subrange(0, i + 1)));
            }
            assert forall|k: int| 0 <= k < joined(self@.subrange(0, i + 1)).len()
                implies #[trigger] joined(self@.subrange(0, i + 1))[k] < 128 by {
                let prev = joined(self@.subrange(0, i as int));
                if i == 0 {
                    assert(joined(self@.subrange(0, i + 1)) == item);
                } else {
                    assert(joined(self@.subrange(0, i + 1)) == prev + seq![59u8] + item);
                    if k < prev.len() {
                        assert(prev[k] < 128);
                    } else if k > prev.len() {
                        assert(item[k - prev.len() - 1] < 128);
                    }
                }
            }
            i = i + 1;
        }
        assert(self@.subrange(0, N as int) =~= self@);
    }
}

/// Fixed-size text field as stored in an image header, padded with zero bytes.
#[derive(Clone, Copy)]
pub struct TextBytes<const N: usize>(pub [u8; N]);

/// A byte shown as itself when it is printable ASCII other than `|`, `/` and
/// `;`, and as `.` otherwise.
pub open spec fn shown_byte(b: u8) -> u8 {
    if 0x20 <= b < 0x7f && b != 0x7c && b != 0x2f && b != 0x3b {
        b
    } else {
        0x2eu8
    }
}

/// The bytes up to the first zero byte, each shown through [`shown_byte`].
pub open spec fn shown_text(s: Seq<u8>) -> Seq<u8>
    decreases s.len(),
{
    if s.len() == 0 || s[0] == 0 {
        Seq::empty()
    } else {
        seq![shown_byte(s[0])] + shown_text(s.drop_first())
    }
}

/// A shown text is no longer than its field.
pub proof fn lemma_shown_text_len(s: Seq<u8>)
    ensures
        shown_text(s).len() <= s.len(),
    decreases s.len(),
{
    if s.len() > 0 && s[0] != 0 {
        lemma_shown_text_len(s.drop_first());
    }
}

/// Bytes joined with `;` take at most four characters each, less one.
pub proof fn lemma_joined_bytes_len(items: Seq<u8>)
    requires
        items.len() >= 1,
    ensures
        joined(items).len() <= 4 * items.len() - 1,
    decreases items.len(),
{
    lemma_decimal_len_of_width(items.last() as nat);
    if items.len() > 1 {
        lemma_joined_bytes_len(items.drop_last());
    } else {
        lemma_decimal_len_of_width(items[0] as nat);
    }
}

pub proof fn lemma_shown_text_ascii(s: Seq<u8>)
    ensures
        is_ascii_bytes(shown_text(s)),
        !shown_text(s).contains(0x7cu8),
    decreases s.len(),
{
    if s.len() > 0 && s[0] != 0 {
        lemma_shown_text_ascii(s.drop_first());
        let rest = shown_text(s.drop_first());
        assert(shown_text(s) == seq![shown_byte(s[0])] + rest);
        assert forall|i: int| 0 <= i < shown_text(s).len() implies #[trigger] shown_text(s)[i] < 128 by {
            if i > 0 {
                assert(shown_text(s)[i] == rest[i - 1]);
            }
        }
        if shown_text(s).contains(0x7cu8) {
            let i = choose|i: int| 0 <= i < shown_text(s).len() && shown_text(s)[i] == 0x7cu8;
            if i > 0 {
                assert(rest[i - 1] == 0x7cu8);
            }
        }
    }
}

impl<const N: usize> TextBytes<N> {
    pub open spec fn text(&self) -> Seq<u8> {
        shown_text(self.0@)
    }

    /// Makes a field out of exactly `N` bytes.
    pub fn try_from_slice(value: &[u8]) -> (r: Option<Self>)
        ensures
            r is Some <==> value@.len() == N,
            r matches Some(t) ==> t.0@ == value@,
    {
        if value.len() != N {
            return None;
        }
        let mut bytes: [u8; N] = [0u8; N];
        let mut i: usize = 0;
        while i < N
            invariant
                i <= N,
                value@.len() == N,
                bytes@.len() == N,
                forall|k: int| 0 <= k < i ==> bytes@[k] == value@[k],
            decreases N - i,
        {
            bytes[i] = value[i];
            i = i + 1;
        }
        assert(bytes@ =~= value@);
        Some(TextBytes(bytes))
    }

    /// Whether the field starts with `prefix`.
    pub fn starts_with(&self, prefix: &[u8]) -> (r: bool)
        ensures
            r == (prefix@.len() <= N && self.0@.subrange(0, prefix@.len() as int) == prefix@),
    {
        if prefix.len() > N {
            return false;
        }
        let mut i: usize = 0;
        while i < prefix.len()
            invariant
                i <= prefix@.len() <= N,
                self.0@.len() == N,
                forall|k: int| 0 <= k < i ==> self.0@[k] == prefix@[k],
            decreases prefix@.len() - i,
        {
            if self.0[i] != prefix[i] {
                assert(self.0@.subrange(0, prefix@.len() as int)[i as int] != prefix@[i as int]);
                return false;
            }
            i = i + 1;
        }
        assert(self.0@.subrange(0, prefix@.len() as int) =~= prefix@);
        true
    }
}

impl<const N: usize> CompactFormat for TextBytes<N> {
    open spec fn compact_text(&self) -> Seq<u8> {
        shown_text(self.0@)
    }

    fn compact_format(&self, out: &mut Vec<u8>) {
        proof { lemma_shown_text_ascii(self.0@); }
        let ghost start = out@;
        let mut i: usize = 0;
        assert(self.0@.skip(0) =~= self.0@);
        while i < N && self.0[i] != 0
            invariant
                i <= N,
                self.0@.len() == N,
                shown_text(self.0@) == out@.skip(start.len() as int) + shown_text(self.0@.skip(i as int)),
                out@.len() >= start.len(),
                out@.subrange(0, start.len() as int) == start,
            decreases N - i,
        {
            let b = self.0[i];
            let shown: u8 = if 0x20 <= b && b < 0x7f && b != 0x7c && b != 0x2f && b != 0x3b {
                b
            } else {
                0x2e
            };
            let ghost rest = self.0@.skip(i as int);
            assert(rest[0] == b);
            assert(rest.drop_first() =~= self.0@.skip(i + 1));
            let ghost before = out@;
            out.push(shown);
            assert(out@.skip(start.len() as int) =~= before.skip(start.len() as int) + seq![shown]);
            assert(out@.subrange(0, start.len() as int) =~= before.subrange(0, start.len() as int));
            i = i + 1;
        }
        if i < N {
            assert(self.0@.skip(i as int)[0] == 0);
        }
        assert(shown_text(self.0@.skip(i as int)) =~= Seq::<u8>::empty());
        assert(out@ =~= start + out@.skip(start.len() as int));
    }
}

/// The bytes `truncated`.
pub open spec fn truncated_text() -> Seq<u8> {
    seq![116u8, 114u8, 117u8, 110u8, 99u8, 97u8, 116u8, 101u8, 100u8]
}

/// What a buffer of capacity `n` that holds `current` holds after `text` was
/// formatted into it: the text appended when it fits, and otherwise the word
/// `truncated` in place of everything (or nothing, where even that does not fit).
pub open spec fn formatted_into(current: Seq<u8>, text: Seq<u8>, n: nat) -> Seq<u8> {
    if current.len() + text.len() <= n {
        current + text
    } else if truncated_text().len() <= n {
        truncated_text()
    } else {
        Seq::empty()
    }
}

/// A string of at most `N` bytes that lives in a buffer of fixed capacity.
pub struct FixedString<const N: usize> {
    data: Vec<u8>,
}

impl<const N: usize> View for FixedString<N> {
    type V = Seq<u8>;

    closed spec fn view(&self) -> Seq<u8> {
        self.data@
    }
}

impl<const N: usize> FixedString<N> {
    #[verifier::type_invariant]
    closed spec fn well_formed(&self) -> bool {
        &&& self.data@.len() <= N
        &&& valid_utf8(self.data@)
    }

    /// The empty string.
    pub fn new() -> (r: Self)
        ensures
            r@ == Seq::<u8>::empty(),
    {
        proof { lemma_ascii_valid_utf8(Seq::<u8>::empty()); }
        FixedString { data: Vec::new() }
    }

    /// Appends `bytes` when they fit.
    fn write_bytes(&mut self, bytes: &[u8]) -> (r: Result<(), ()>)
        requires
            valid_utf8(bytes@),
        ensures
            old(self)@.len() + bytes@.len() <= N ==> r is Ok && final(self)@ == old(self)@ + bytes@,
            old(self)@.len() + bytes@.len() > N ==> r is Err && final(self)@ == old(self)@,
    {
        proof { use_type_invariant(&*self); }
        if bytes.len() > N - self.data.len() {
            return Err(());
        }
        let mut data = Vec::new();
        core::mem::swap(&mut data, &mut self.data);
        push_all(&mut data, bytes);
        proof { valid_utf8_concat(old(self)@, bytes@); }
        self.data = data;
        Ok(())
    }

    /// Appends `s` when it fits in the remaining capacity; otherwise leaves the
    /// string as it is and fails.
    pub fn write_str(&mut self, s: &str) -> (r: Result<(), ()>)
        ensures
            old(self)@.len() + s.spec_bytes().len() <= N ==> r is Ok && final(self)@ == old(self)@ + s.spec_bytes(),
            old(self)@.len() + s.spec_bytes().len() > N ==> r is Err && final(self)@ == old(self)@,
    {
        proof { encode_utf8_valid_utf8(s@); }
        self.write_bytes(s.as_bytes())
    }

    /// Replaces the contents with `truncated` (or nothing, if that does not fit).
    fn mark_truncated(&mut self)
        ensures
            final(self)@ == if truncated_text().len() <= N { truncated_text() } else { Seq::<u8>::empty() },
    {
        proof { lemma_ascii_valid_utf8(Seq::<u8>::empty()); }
        let mut empty: Vec<u8> = Vec::new();
        core::mem::swap(&mut empty, &mut self.data);
        let marker: Vec<u8> = vec![116u8, 114u8, 117u8, 110u8, 99u8, 97u8, 116u8, 101u8, 100u8];
        assert(marker@ =~= truncated_text());
        proof { lemma_ascii_valid_utf8(marker@); }
        let _ = self.write_bytes(marker.as_slice());
    }

    /// Writes already-rendered text; where it does not fit, the string becomes
    /// `truncated`.
    pub fn write_format(self, rendered: &str) -> (r: Self)
        ensures
            r@ == formatted_into(self@, rendered.spec_bytes(), N as nat),
    {
        let mut this = self;
        if this.write_str(rendered).is_err() {
            this.mark_truncated();
        }
        this
    }

    /// Writes the text that formatting arguments rendered; where it does not
    /// fit, the string becomes `truncated`.
    pub fn write_formats(self, rendered: &str) -> (r: Self)
        ensures
            r@ == formatted_into(self@, rendered.spec_bytes(), N as nat),
    {
        self.write_format(rendered)
    }

    /// Writes ASCII text; where it does not fit, the string becomes `truncated`.
    pub fn write_ascii(self, text: &[u8]) -> (r: Self)
        requires
            is_ascii_bytes(text@),
        ensures
            r@ == formatted_into(self@, text@, N as nat),
    {
        let mut this = self;
        proof { lemma_ascii_valid_utf8(text@); }
        if this.write_bytes(text).is_err() {
            this.mark_truncated();
        }
        this
    }

    /// A fresh string holding the compact text of `value`.
    pub fn from_compact<T: CompactFormat>(value: CompactFormatWrapper<T>) -> (r: Self)
        ensures
            r@ == formatted_into(Seq::empty(), value.inner().compact_text(), N as nat),
    {
        let text = value.text();
        Self::new().write_ascii(text.as_slice())
    }

    /// The text held.
    pub fn as_str(&self) -> (r: &str)
        ensures
            r.spec_bytes() == self@,
    {
        proof { use_type_invariant(self); }
        match str_from_utf8(self.data.as_slice()) {
            Some(s) => s,
            None => "unknown",
        }
    }

    /// The number of bytes held.
    pub fn len(&self) -> (r: usize)
        ensures
            r == self@.len(),
            r <= N,
    {
        proof { use_type_invariant(self); }
        self.data.len()
    }
}

} // verus!
