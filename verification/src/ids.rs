//! Identifiers of accounts, groups and threads, and their text forms.

use vstd::prelude::*;

use crate::text::{ascii_lower, chars_of, string_of};

verus! {

/// The 128-bit identifier of an account.
#[derive(Clone, Copy, Debug, PartialEq, Eq, Structural)]
pub struct Uuid {
    pub value: u128,
}

/// An account, by its main or by its phone number identity.
#[derive(Clone, Copy, Debug, PartialEq, Eq, Structural)]
pub enum ServiceId {
    Aci(Uuid),
    Pni(Uuid),
}

/// The 256-bit master key of a group.
#[derive(Clone, Copy, Debug, PartialEq, Eq, Structural)]
pub struct GroupKey {
    pub high: u128,
    pub low: u128,
}

/// A conversation with a contact or a group.
#[derive(Clone, Copy, Debug, PartialEq, Eq, Structural)]
pub enum Thread {
    Contact(ServiceId),
    Group(GroupKey),
}

impl ServiceId {
    pub open spec fn uuid(self) -> Uuid {
        match self {
            ServiceId::Aci(u) => u,
            ServiceId::Pni(u) => u,
        }
    }

    /// The identifier without the kind of identity.
    pub fn raw_uuid(&self) -> (r: Uuid)
        ensures
            r == self.uuid(),
    {
        match self {
            ServiceId::Aci(u) => *u,
            ServiceId::Pni(u) => *u,
        }
    }
}

// ── Bytes ────────────────────────────────────────────────────────────────────

/// 256 to the power `n`.
pub open spec fn pow256(n: nat) -> nat
    decreases n,
{
    if n == 0 {
        1
    } else {
        256 * pow256((n - 1) as nat)
    }
}

/// The last `n` bytes of a number, most significant first.
pub open spec fn be_bytes(v: nat, n: nat) -> Seq<u8>
    decreases n,
{
    if n == 0 {
        Seq::empty()
    } else {
        be_bytes(v / 256, (n - 1) as nat).push((v % 256) as u8)
    }
}

/// The number that a list of bytes stands for, most significant first.
pub open spec fn be_value(b: Seq<u8>) -> nat
    decreases b.len(),
{
    if b.len() == 0 {
        0
    } else {
        be_value(b.drop_last()) * 256 + b.last() as nat
    }
}

proof fn lemma_pow256_16()
    ensures
        pow256(16) == 0x1_0000_0000_0000_0000_0000_0000_0000_0000,
        forall|n: nat| n <= 16 ==> #[trigger] pow256(n) <= pow256(16),
{
    reveal_with_fuel(pow256, 17);
    assert forall|n: nat| n <= 16 implies #[trigger] pow256(n) <= pow256(16) by {
        lemma_pow256_grows(n, 16);
    }
}

proof fn lemma_pow256_grows(a: nat, b: nat)
    requires
        a <= b,
    ensures
        1 <= pow256(a) <= pow256(b),
    decreases b,
{
    if b > a {
        lemma_pow256_grows(a, (b - 1) as nat);
    } else if a > 0 {
        lemma_pow256_grows((a - 1) as nat, (b - 1) as nat);
    }
}

proof fn lemma_be_value_bound(b: Seq<u8>)
    ensures
        be_value(b) < pow256(b.len()),
    decreases b.len(),
{
    if b.len() > 0 {
        lemma_be_value_bound(b.drop_last());
    }
}

pub proof fn lemma_be_bytes_len(v: nat, n: nat)
    ensures
        be_bytes(v, n).len() == n,
    decreases n,
{
    if n > 0 {
        lemma_be_bytes_len(v / 256, (n - 1) as nat);
    }
}

proof fn lemma_value_of_bytes(v: nat, n: nat)
    requires
        v < pow256(n),
    ensures
        be_value(be_bytes(v, n)) == v,
    decreases n,
{
    if n > 0 {
        lemma_value_of_bytes(v / 256, (n - 1) as nat);
        let b = be_bytes(v, n);
        assert(b.drop_last() == be_bytes(v / 256, (n - 1) as nat));
    }
}

proof fn lemma_bytes_of_value(b: Seq<u8>)
    ensures
        be_bytes(be_value(b), b.len()) == b,
    decreases b.len(),
{
    if b.len() > 0 {
        lemma_bytes_of_value(b.drop_last());
        assert(be_value(b) / 256 == be_value(b.drop_last()));
        assert(b == b.drop_last().push(b.last()));
    }
}

/// The sixteen bytes of a number, most significant first.
pub open spec fn u128_bytes(v: u128) -> Seq<u8> {
    be_bytes(v as nat, 16)
}

/// The sixteen bytes and the number determine each other.
pub proof fn lemma_u128_bytes(v: u128)
    ensures
        u128_bytes(v).len() == 16,
        be_value(u128_bytes(v)) == v,
{
    lemma_pow256_16();
    lemma_be_bytes_len(v as nat, 16);
    lemma_value_of_bytes(v as nat, 16);
}

/// Appends the sixteen bytes of a number.
pub fn push_u128(out: &mut Vec<u8>, v: u128)
    ensures
        final(out)@ == old(out)@ + u128_bytes(v),
{
    push_be(out, v, 16);
}

fn push_be(out: &mut Vec<u8>, v: u128, n: u8)
    ensures
        final(out)@ == old(out)@ + be_bytes(v as nat, n as nat),
    decreases n,
{
    if n > 0 {
        push_be(out, v / 256, n - 1);
        let ghost head = out@;
        out.push((v % 256) as u8);
        proof {
            let b = be_bytes((v / 256) as nat, (n - 1) as nat);
            assert(head.push((v % 256) as u8) == old(out)@ + b.push((v % 256) as u8));
        }
    } else {
        proof {
            assert(out@ == old(out)@ + be_bytes(v as nat, 0));
        }
    }
}

/// The number in sixteen bytes of a list, from `at` on.
pub fn read_u128(bytes: &Vec<u8>, at: usize) -> (v: u128)
    requires
        at + 16 <= bytes@.len(),
    ensures
        v == be_value(bytes@.subrange(at as int, at + 16)),
        u128_bytes(v) == bytes@.subrange(at as int, at + 16),
{
    let mut v: u128 = 0;
    let mut i: usize = 0;
    let n = bytes.len();
    proof {
        lemma_pow256_16();
    }
    while i < 16
        invariant
            i <= 16,
            at + 16 <= bytes@.len() == n,
            v == be_value(bytes@.subrange(at as int, at + i)),
            pow256(16) == 0x1_0000_0000_0000_0000_0000_0000_0000_0000,
            forall|n: nat| n <= 16 ==> #[trigger] pow256(n) <= pow256(16),
        decreases 16 - i,
    {
        proof {
            let next = bytes@.subrange(at as int, at + i + 1);
            assert(next.drop_last() == bytes@.subrange(at as int, at + i));
            lemma_be_value_bound(next);
            assert(pow256((i + 1) as nat) <= pow256(16));
        }
        v = v * 256 + bytes[at + i] as u128;
        i += 1;
    }
    proof {
        lemma_bytes_of_value(bytes@.subrange(at as int, at + 16));
    }
    v
}

impl Uuid {
    /// The sixteen bytes of the identifier.
    pub fn to_bytes(&self) -> (r: Vec<u8>)
        ensures
            r@ == u128_bytes(self.value),
    {
        let mut out: Vec<u8> = Vec::new();
        push_u128(&mut out, self.value);
        proof {
            assert(Seq::<u8>::empty() + u128_bytes(self.value) == u128_bytes(self.value));
        }
        out
    }

    /// The identifier in a list of sixteen bytes; a list of another length
    /// holds none.
    pub fn from_slice(bytes: &Vec<u8>) -> (r: Option<Uuid>)
        ensures
            r is Some <==> bytes@.len() == 16,
            r matches Some(u) ==> u128_bytes(u.value) == bytes@ && u.value == be_value(bytes@),
    {
        if bytes.len() != 16 {
            return None;
        }
        proof {
            assert(bytes@.subrange(0, 16) == bytes@);
        }
        Some(Uuid { value: read_u128(bytes, 0) })
    }
}

/// The thirty-two bytes of a group key.
pub open spec fn key_bytes(k: GroupKey) -> Seq<u8> {
    u128_bytes(k.high) + u128_bytes(k.low)
}

impl GroupKey {
    /// The thirty-two bytes of the key.
    pub fn to_bytes(&self) -> (r: Vec<u8>)
        ensures
            r@ == key_bytes(*self),
    {
        let mut out: Vec<u8> = Vec::new();
        push_u128(&mut out, self.high);
        push_u128(&mut out, self.low);
        proof {
            assert(Seq::<u8>::empty() + u128_bytes(self.high) == u128_bytes(self.high));
        }
        out
    }
}

// ── Hexadecimal text ─────────────────────────────────────────────────────────

/// The character for a hexadecimal digit.
pub open spec fn hex_digit(d: nat) -> char {
    if d < 10 {
        (48 + d) as char
    } else {
        (87 + d) as char
    }
}

/// Two hexadecimal digits for each byte.
pub open spec fn hex_of(b: Seq<u8>) -> Seq<char>
    decreases b.len(),
{
    if b.len() == 0 {
        Seq::empty()
    } else {
        hex_of(b.drop_last()).push(hex_digit((b.last() / 16) as nat)).push(
            hex_digit((b.last() % 16) as nat),
        )
    }
}

/// Whether a character is a hexadecimal digit of either case.
pub open spec fn is_hex(c: char) -> bool {
    ('0' <= c <= '9') || ('a' <= c <= 'f') || ('A' <= c <= 'F')
}

/// The value of a hexadecimal digit.
pub open spec fn hex_value(c: char) -> nat {
    if '0' <= c <= '9' {
        (c as u32 - 48) as nat
    } else if 'a' <= c <= 'f' {
        (c as u32 - 87) as nat
    } else {
        (c as u32 - 55) as nat
    }
}

/// Whether a text is all hexadecimal digits.
pub open spec fn is_hex_text(s: Seq<char>) -> bool {
    forall|i: int| 0 <= i < s.len() ==> is_hex(#[trigger] s[i])
}

/// The number that hexadecimal digits stand for.
pub open spec fn hex_number(s: Seq<char>) -> nat
    decreases s.len(),
{
    if s.len() == 0 {
        0
    } else {
        hex_number(s.drop_last()) * 16 + hex_value(s.last())
    }
}

fn digit_char(d: u8) -> (c: char)
    requires
        d < 16,
    ensures
        c == hex_digit(d as nat),
{
    if d < 10 {
        (48 + d) as char
    } else {
        (87 + d) as char
    }
}

/// Writes bytes as hexadecimal digits.
pub fn hex_string(bytes: &[u8]) -> (r: String)
    ensures
        r@ == hex_of(bytes@),
{
    let n = bytes.len();
    let mut out = String::new();
    let mut i: usize = 0;
    proof {
        assert(bytes@.take(0) == Seq::<u8>::empty());
    }
    while i < n
        invariant
            i <= n == bytes@.len(),
            out@ == hex_of(bytes@.take(i as int)),
        decreases n - i,
    {
        let b = bytes[i];
        out.push(digit_char(b / 16));
        out.push(digit_char(b % 16));
        proof {
            assert(bytes@.take(i + 1).drop_last() == bytes@.take(i as int));
        }
        i += 1;
    }
    proof {
        assert(bytes@.take(n as int) == bytes@);
    }
    out
}

proof fn lemma_hex_of(b: Seq<u8>)
    ensures
        hex_of(b).len() == 2 * b.len(),
        is_hex_text(hex_of(b)),
        hex_number(hex_of(b)) == be_value(b),
    decreases b.len(),
{
    reveal_with_fuel(hex_number, 3);
    if b.len() > 0 {
        lemma_hex_of(b.drop_last());
        let h = hex_of(b.drop_last());
        let hi = hex_digit((b.last() / 16) as nat);
        let lo = hex_digit((b.last() % 16) as nat);
        assert(is_hex(hi) && hex_value(hi) == (b.last() / 16) as nat);
        assert(is_hex(lo) && hex_value(lo) == (b.last() % 16) as nat);
        assert(h.push(hi).push(lo).drop_last() == h.push(hi));
        assert(h.push(hi).drop_last() == h);
    }
}

proof fn lemma_hex_of_concat(a: Seq<u8>, b: Seq<u8>)
    ensures
        hex_of(a + b) == hex_of(a) + hex_of(b),
    decreases b.len(),
{
    if b.len() == 0 {
        assert(a + b == a);
    } else {
        assert((a + b).drop_last() == a + b.drop_last());
        lemma_hex_of_concat(a, b.drop_last());
    }
}

// ── UUID text ────────────────────────────────────────────────────────────────

/// Thirty-two digits with hyphens after 8, 12, 16 and 20 of them.
pub open spec fn hyphenated(h: Seq<char>) -> Seq<char> {
    h.subrange(0, 8) + "-"@ + h.subrange(8, 12) + "-"@ + h.subrange(12, 16) + "-"@ + h.subrange(
        16,
        20,
    ) + "-"@ + h.subrange(20, 32)
}

/// The usual text of an identifier: lower case digits with hyphens.
pub open spec fn uuid_text(u: Uuid) -> Seq<char> {
    hyphenated(hex_of(u128_bytes(u.value)))
}

/// The digits of a hyphenated text without its hyphens.
pub open spec fn unhyphenated(s: Seq<char>) -> Seq<char> {
    s.subrange(0, 8) + s.subrange(9, 13) + s.subrange(14, 18) + s.subrange(19, 23) + s.subrange(
        24,
        36,
    )
}

/// The identifier in thirty-two hexadecimal digits.
pub open spec fn uuid_of_digits(h: Seq<char>) -> Option<Uuid> {
    if h.len() == 32 && is_hex_text(h) {
        Some(Uuid { value: hex_number(h) as u128 })
    } else {
        None
    }
}

/// The identifier in a hyphenated text.
pub open spec fn uuid_of_hyphenated(s: Seq<char>) -> Option<Uuid> {
    if s.len() == 36 && s[8] == '-' && s[13] == '-' && s[18] == '-' && s[23] == '-' {
        uuid_of_digits(unhyphenated(s))
    } else {
        None
    }
}

/// The identifier in a text: digits alone, hyphenated, hyphenated in braces, or
/// hyphenated behind `urn:uuid:` in either case.
pub open spec fn uuid_of_text(s: Seq<char>) -> Option<Uuid> {
    if s.len() == 32 {
        uuid_of_digits(s)
    } else if s.len() == 36 {
        uuid_of_hyphenated(s)
    } else if s.len() == 38 && s[0] == '{' && s[37] == '}' {
        uuid_of_hyphenated(s.subrange(1, 37))
    } else if s.len() == 45 && s.take(9).map_values(|c: char| ascii_lower(c)) == "urn:uuid:"@ {
        uuid_of_hyphenated(s.skip(9))
    } else {
        None
    }
}

/// `uuid::Uuid::parse_str`: reads an identifier from its text. All four forms
/// are ASCII, so lengths in bytes and in characters agree on every text that
/// holds an identifier.
#[verifier::external_body]
fn parse_uuid(s: &str) -> (r: Option<Uuid>)
    ensures
        r == uuid_of_text(s@),
{
    uuid::Uuid::parse_str(s).ok().map(|u| Uuid { value: u.as_u128() })
}

impl Uuid {
    /// Reads an identifier from its text.
    pub fn parse_str(s: &str) -> (r: Option<Uuid>)
        ensures
            r == uuid_of_text(s@),
    {
        parse_uuid(s)
    }

    /// Writes the identifier in its usual form.
    pub fn text(&self) -> (r: String)
        ensures
            r@ == uuid_text(*self),
    {
        let bytes = self.to_bytes();
        let digits = hex_string(bytes.as_slice());
        let h = chars_of(digits.as_str());
        proof {
            lemma_u128_bytes(self.value);
            lemma_hex_of(u128_bytes(self.value));
        }
        string_of(&h, 0, 8).concat("-").concat(string_of(&h, 8, 12).as_str()).concat("-").concat(
            string_of(&h, 12, 16).as_str(),
        ).concat("-").concat(string_of(&h, 16, 20).as_str()).concat("-").concat(
            string_of(&h, 20, 32).as_str(),
        )
    }
}

// ── Thread names ─────────────────────────────────────────────────────────────

/// The text by which a thread is named on the command line.
pub open spec fn thread_text(t: Thread) -> Seq<char> {
    match t {
        Thread::Contact(sid) => uuid_text(sid.uuid()),
        Thread::Group(key) => hex_of(key_bytes(key)),
    }
}

/// The thread that a text names: a contact by UUID or a group by 64 digits.
pub open spec fn thread_of_text(s: Seq<char>) -> Option<Thread> {
    match uuid_of_text(s) {
        Some(u) => Some(Thread::Contact(ServiceId::Aci(u))),
        None => if s.len() == 64 && is_hex_text(s) {
            Some(
                Thread::Group(
                    GroupKey {
                        high: hex_number(s.take(32)) as u128,
                        low: hex_number(s.skip(32)) as u128,
                    },
                ),
            )
        } else {
            None
        },
    }
}

/// The text by which a thread is named on the command line.
pub fn thread_id_string(thread: &Thread) -> (r: String)
    ensures
        r@ == thread_text(*thread),
{
    match thread {
        Thread::Contact(sid) => sid.raw_uuid().text(),
        Thread::Group(key) => {
            let bytes = key.to_bytes();
            hex_string(bytes.as_slice())
        },
    }
}

fn is_hex_char(c: char) -> (r: bool)
    ensures
        r == is_hex(c),
{
    ('0' <= c && c <= '9') || ('a' <= c && c <= 'f') || ('A' <= c && c <= 'F')
}

fn hex_char_value(c: char) -> (r: u8)
    requires
        is_hex(c),
    ensures
        r == hex_value(c),
        r < 16,
{
    let v = c as u32;
    if '0' <= c && c <= '9' {
        (v - 48) as u8
    } else if 'a' <= c && c <= 'f' {
        (v - 87) as u8
    } else {
        (v - 55) as u8
    }
}

proof fn lemma_hex_number_bound(s: Seq<char>)
    requires
        is_hex_text(s),
        s.len() <= 32,
    ensures
        hex_number(s) < pow16(s.len()),
    decreases s.len(),
{
    if s.len() > 0 {
        assert(is_hex(s.last()));
        assert forall|i: int| 0 <= i < s.drop_last().len() implies is_hex(
            #[trigger] s.drop_last()[i],
        ) by {
            assert(is_hex(s[i]));
        }
        lemma_hex_number_bound(s.drop_last());
    }
}

/// 16 to the power `n`.
spec fn pow16(n: nat) -> nat
    decreases n,
{
    if n == 0 {
        1
    } else {
        16 * pow16((n - 1) as nat)
    }
}

proof fn lemma_pow16_32(n: nat)
    requires
        n <= 32,
    ensures
        pow16(n) <= 0x1_0000_0000_0000_0000_0000_0000_0000_0000,
{
    reveal_with_fuel(pow16, 33);
}

/// Reads 32 hexadecimal digits.
fn read_hex(chars: &Vec<char>, at: usize) -> (v: u128)
    requires
        at + 32 <= chars@.len(),
        is_hex_text(chars@),
    ensures
        v == hex_number(chars@.subrange(at as int, at + 32)),
{
    let n = chars.len();
    let mut v: u128 = 0;
    let mut i: usize = 0;
    while i < 32
        invariant
            i <= 32,
            at + 32 <= chars@.len() == n,
            is_hex_text(chars@),
            v == hex_number(chars@.subrange(at as int, at + i)),
        decreases 32 - i,
    {
        let c = chars[at + i];
        proof {
            let next = chars@.subrange(at as int, at + i + 1);
            assert(next.drop_last() == chars@.subrange(at as int, at + i));
            assert(is_hex(chars@[at + i]));
            assert(is_hex_text(next));
            lemma_hex_number_bound(next);
            lemma_pow16_32((i + 1) as nat);
        }
        v = v * 16 + hex_char_value(c) as u128;
        i += 1;
    }
    v
}

/// Reads the name of a thread.
pub fn parse_thread_id(s: &str) -> (r: Result<Thread, String>)
    ensures
        r is Ok <==> thread_of_text(s@) is Some,
        r matches Ok(t) ==> thread_of_text(s@) == Some(t),
        r matches Err(e) ==> e@ == "invalid recipient '"@ + s@
            + "': expected a UUID (contact) or 64-char hex string (group)"@,
{
    if let Some(u) = parse_uuid(s) {
        return Ok(Thread::Contact(ServiceId::Aci(u)));
    }
    let chars = chars_of(s);
    if chars.len() == 64 {
        let mut i: usize = 0;
        while i < 64 && is_hex_char(chars[i])
            invariant
                i <= 64 == chars@.len(),
                forall|j: int| 0 <= j < i ==> is_hex(#[trigger] chars@[j]),
            decreases 64 - i,
        {
            i += 1;
        }
        if i == 64 {
            proof {
                assert(s@.take(32) == chars@.subrange(0, 32));
                assert(s@.skip(32) == chars@.subrange(32, 64));
            }
            return Ok(
                Thread::Group(GroupKey { high: read_hex(&chars, 0), low: read_hex(&chars, 32) }),
            );
        }
    }
    Err(
        "invalid recipient '".to_owned().concat(s).concat(
            "': expected a UUID (contact) or 64-char hex string (group)",
        ),
    )
}

// ── Laws ─────────────────────────────────────────────────────────────────────

/// An identifier is read back from the text that it is written as.
pub proof fn law_uuid_text_reads_back(u: Uuid)
    ensures
        uuid_text(u).len() == 36,
        uuid_of_text(uuid_text(u)) == Some(u),
{
    let h = hex_of(u128_bytes(u.value));
    let s = uuid_text(u);
    lemma_u128_bytes(u.value);
    lemma_hex_of(u128_bytes(u.value));
    reveal_strlit("-");
    assert(s.len() == 36);
    assert(s[8] == '-' && s[13] == '-' && s[18] == '-' && s[23] == '-');
    assert(unhyphenated(s) == h);
}

/// The name that a thread is shown by names that thread, for every group and
/// for every contact by its main identity.
pub proof fn law_thread_text_reads_back(t: Thread)
    requires
        !(t matches Thread::Contact(ServiceId::Pni(_))),
    ensures
        thread_of_text(thread_text(t)) == Some(t),
{
    match t {
        Thread::Contact(sid) => {
            law_uuid_text_reads_back(sid.uuid());
        },
        Thread::Group(key) => {
            let s = thread_text(t);
            lemma_u128_bytes(key.high);
            lemma_u128_bytes(key.low);
            lemma_hex_of(u128_bytes(key.high));
            lemma_hex_of(u128_bytes(key.low));
            lemma_hex_of(key_bytes(key));
            lemma_hex_of_concat(u128_bytes(key.high), u128_bytes(key.low));
            assert(s.take(32) == hex_of(u128_bytes(key.high)));
            assert(s.skip(32) == hex_of(u128_bytes(key.low)));
        },
    }
}

/// Digits are read alike in upper and lower case, and each stands for its value.
pub proof fn law_hex_digits_read_back(d: nat, c: char)
    requires
        d < 16,
    ensures
        is_hex(hex_digit(d)),
        hex_value(hex_digit(d)) == d,
        'a' <= c <= 'f' ==> hex_value(c) == hex_value(((c as u32) - 32) as char),
        '0' <= c <= '9' ==> hex_value(c) == c as nat - 48,
        'a' <= c <= 'f' ==> hex_value(c) == c as nat - 87,
{
}

/// A recipient of sixty-four digits is a group, by its key; an identifier of an account is
/// that account; nothing else is a recipient.
pub proof fn law_recipients_are_read(s: Seq<char>)
    ensures
        uuid_of_text(s) matches Some(u) ==> thread_of_text(s) == Some(
            Thread::Contact(ServiceId::Aci(u)),
        ),
        s.len() == 64 && is_hex_text(s) ==> thread_of_text(s) == Some(
            Thread::Group(
                GroupKey {
                    high: hex_number(s.take(32)) as u128,
                    low: hex_number(s.skip(32)) as u128,
                },
            ),
        ),
        uuid_of_text(s) is None && !(s.len() == 64 && is_hex_text(s)) ==> thread_of_text(s) is None,
{
}

/// A thread is written as the identifier of its account, or as the digits of its key, two
/// for each byte.
pub proof fn law_threads_are_written(t: Thread)
    ensures
        t matches Thread::Contact(sid) ==> thread_text(t) == uuid_text(sid.uuid()),
        t matches Thread::Group(key) ==> thread_text(t) == hex_of(u128_bytes(key.high) + u128_bytes(
            key.low,
        )),
        t matches Thread::Contact(ServiceId::Aci(u)) ==> thread_text(t) == uuid_text(u),
        t matches Thread::Contact(ServiceId::Pni(u)) ==> thread_text(t) == uuid_text(u),
{
}

/// An identifier is read alike from its digits alone, with hyphens, in braces, and behind
/// `urn:uuid:`; it is the number that the digits stand for.
pub proof fn law_identifiers_are_read_in_four_forms(h: Seq<char>)
    requires
        h.len() == 32,
        is_hex_text(h),
    ensures
        uuid_of_text(h) == Some(Uuid { value: hex_number(h) as u128 }),
        uuid_of_text(hyphenated(h)) == uuid_of_text(h),
        uuid_of_text(seq!['{'] + hyphenated(h) + seq!['}']) == uuid_of_text(h),
        uuid_of_text("urn:uuid:"@ + hyphenated(h)) == uuid_of_text(h),
{
    reveal_strlit("-");
    reveal_strlit("urn:uuid:");
    let s = hyphenated(h);
    assert(unhyphenated(s) == h);
    let b = seq!['{'] + s + seq!['}'];
    assert(b.subrange(1, 37) == s);
    let u = "urn:uuid:"@ + s;
    assert(u.skip(9) == s);
    assert(u.take(9).map_values(|c: char| ascii_lower(c)) == "urn:uuid:"@);
}

/// Every text that an identifier is read from has one of four lengths; with hyphens it has
/// them in four places, and digits everywhere else.
pub proof fn law_nothing_else_is_an_identifier(s: Seq<char>, i: int)
    requires
        uuid_of_text(s) is Some,
        0 <= i < s.len(),
    ensures
        s.len() == 32 || s.len() == 36 || s.len() == 38 || s.len() == 45,
        s.len() == 32 ==> is_hex(s[i]),
        s.len() == 36 && (i == 8 || i == 13 || i == 18 || i == 23) ==> s[i] == '-',
        s.len() == 36 && !(i == 8 || i == 13 || i == 18 || i == 23) ==> is_hex(s[i]),
        s.len() == 38 ==> s[0] == '{' && s[37] == '}' && uuid_of_text(s) == uuid_of_text(
            s.subrange(1, 37),
        ),
        s.len() == 45 ==> uuid_of_text(s) == uuid_of_text(s.skip(9)) && s[3] == ':' && s[8] == ':',
{
    if s.len() == 36 {
        let d = unhyphenated(s);
        let k = if i < 8 {
            i
        } else if i < 13 {
            i - 1
        } else if i < 18 {
            i - 2
        } else if i < 23 {
            i - 3
        } else {
            i - 4
        };
        if !(i == 8 || i == 13 || i == 18 || i == 23) {
            assert(d[k] == s[i]);
            assert(is_hex(d[k]));
        }
    }
    if s.len() == 45 {
        reveal_strlit("urn:uuid:");
        let t = s.take(9).map_values(|c: char| ascii_lower(c));
        assert(t[3] == ':' && t[8] == ':');
        assert(t[3] == ascii_lower(s[3]) && t[8] == ascii_lower(s[8]));
    }
}

} // verus!
