//! Conversation, message and request ids: 32 lower-case hexadecimal digits.

use vstd::prelude::*;
use vstd::set_lib::*;
use vstd::relations::injective_on;
use crate::text::{chars_of, str_equal};

verus! {

pub open spec fn is_hex_char(c: char) -> bool {
    ('0' <= c <= '9') || ('a' <= c <= 'f')
}

/// 32 characters, each a digit or a lower-case letter `a`..`f`.
pub open spec fn is_hex32_id(s: Seq<char>) -> bool {
    s.len() == 32 && forall|i: int| 0 <= i < 32 ==> is_hex_char(#[trigger] s[i])
}

/// `char::from_digit(n, 16)` for `n < 16`.
pub open spec fn hex_digit(n: u8) -> char {
    if n < 10 {
        (('0' as u8) + n) as char
    } else {
        (('a' as u8) + n - 10) as char
    }
}

/// Each byte as two hexadecimal digits, the high half first.
pub open spec fn hex_of(bytes: Seq<u8>) -> Seq<char>
    decreases bytes.len(),
{
    if bytes.len() == 0 {
        Seq::empty()
    } else {
        hex_of(bytes.drop_last()) + seq![hex_digit(bytes.last() >> 4), hex_digit(bytes.last() & 0xf)]
    }
}

/// Whether `text` is an id: 32 lower-case hexadecimal digits.
pub fn is_hex32(text: &str) -> (r: bool)
    ensures
        r == is_hex32_id(text@),
{
    let v = chars_of(text);
    if v.len() != 32 {
        return false;
    }
    let mut i: usize = 0;
    while i < 32
        invariant
            i <= 32,
            v.len() == 32,
            v@ == text@,
            forall|j: int| 0 <= j < i ==> is_hex_char(#[trigger] text@[j]),
        decreases 32 - i,
    {
        let c = v[i];
        if !(('0' <= c && c <= '9') || ('a' <= c && c <= 'f')) {
            return false;
        }
        i += 1;
    }
    true
}

pub fn hex_digit_exec(n: u8) -> (c: char)
    requires
        n < 16,
    ensures
        c == hex_digit(n),
        is_hex_char(c),
{
    if n < 10 {
        (48u8 + n) as char
    } else {
        (97u8 + n - 10) as char
    }
}

proof fn lemma_hex_digit_injective(a: u8, b: u8)
    requires
        a < 16,
        b < 16,
        hex_digit(a) == hex_digit(b),
    ensures
        a == b,
{
}

proof fn lemma_hex_of_shape(bytes: Seq<u8>)
    ensures
        hex_of(bytes).len() == 2 * bytes.len(),
        forall|i: int|
            0 <= i < bytes.len() ==> hex_of(bytes)[2 * i] == hex_digit(bytes[i] >> 4) && hex_of(
                bytes,
            )[2 * i + 1] == hex_digit(bytes[i] & 0xf),
        forall|i: int| 0 <= i < hex_of(bytes).len() ==> is_hex_char(#[trigger] hex_of(bytes)[i]),
    decreases bytes.len(),
{
    if bytes.len() > 0 {
        lemma_hex_of_shape(bytes.drop_last());
        let b = bytes.last();
        assert(b >> 4 < 16) by (bit_vector);
        assert(b & 0xf < 16) by (bit_vector);
        assert forall|i: int| 0 <= i < bytes.len() - 1 implies bytes.drop_last()[i] == bytes[i] by {}
    }
}

proof fn lemma_hex_of_injective(a: Seq<u8>, b: Seq<u8>)
    requires
        a.len() == b.len(),
        hex_of(a) == hex_of(b),
    ensures
        a == b,
{
    lemma_hex_of_shape(a);
    lemma_hex_of_shape(b);
    assert forall|i: int| 0 <= i < a.len() implies a[i] == b[i] by {
        let x = a[i];
        let y = b[i];
        assert(hex_of(a)[2 * i] == hex_of(b)[2 * i]);
        assert(hex_of(a)[2 * i + 1] == hex_of(b)[2 * i + 1]);
        assert(x >> 4 < 16 && y >> 4 < 16 && x & 0xf < 16 && y & 0xf < 16) by (bit_vector);
        lemma_hex_digit_injective(x >> 4, y >> 4);
        lemma_hex_digit_injective(x & 0xf, y & 0xf);
        assert((x >> 4 == y >> 4 && x & 0xf == y & 0xf) ==> x == y) by (bit_vector);
    }
    assert(a =~= b);
}

/// The bytes written as hexadecimal digits, two per byte.
pub fn hex_encode(bytes: &[u8]) -> (s: String)
    ensures
        s@ == hex_of(bytes@),
{
    let mut s = String::new();
    let mut i: usize = 0;
    while i < bytes.len()
        invariant
            i <= bytes@.len(),
            s@ == hex_of(bytes@.take(i as int)),
        decreases bytes.len() - i,
    {
        let b = bytes[i];
        assert(b >> 4 < 16) by (bit_vector);
        assert(b & 0xf < 16) by (bit_vector);
        s.push(hex_digit_exec(b >> 4));
        s.push(hex_digit_exec(b & 0xf));
        assert(bytes@.take(i + 1).drop_last() =~= bytes@.take(i as int));
        i += 1;
    }
    assert(bytes@.take(bytes@.len() as int) =~= bytes@);
    s
}

/// `getrandom::fill` on sixteen bytes: bytes from the system's random
/// source, or none where that source fails. Nothing is promised of the bytes.
#[verifier::external_body]
fn random_bytes() -> (r: Option<[u8; 16]>) {
    let mut bytes = [0u8; 16];
    match getrandom::fill(&mut bytes) {
        Ok(()) => Some(bytes),
        Err(_) => None,
    }
}

/// The bytes of a version-4 UUID made from sixteen random bytes: byte 6
/// gets version 4 in its high half, byte 8 the RFC 4122 variant in its two
/// high bits, and the other bytes stay.
pub open spec fn v4_bytes(b: Seq<u8>) -> Seq<u8> {
    b.update(6, (b[6] & 0x0f) | 0x40).update(8, (b[8] & 0x3f) | 0x80)
}

/// `uuid::Builder::from_random_bytes(bytes).into_uuid().into_bytes()`.
/// Trusted: the result is `v4_bytes` of the bytes, as the builder's
/// `with_variant(Variant::RFC4122)` and `with_version(Version::Random)` set
/// those two bytes.
#[verifier::external_body]
fn uuid_v4_from_random(bytes: [u8; 16]) -> (r: [u8; 16])
    ensures
        r@ == v4_bytes(bytes@),
{
    uuid::Builder::from_random_bytes(bytes).into_uuid().into_bytes()
}

/// The id made from sixteen random bytes: the bytes of the version-4 UUID
/// built from them (see `v4_bytes`), as 32 lower-case hexadecimal digits.
pub fn hex32_from_random(raw: [u8; 16]) -> (s: String)
    ensures
        s@ == hex_of(v4_bytes(raw@)),
        is_hex32_id(s@),
{
    let bytes = uuid_v4_from_random(raw);
    let s = hex_encode(&bytes);
    proof {
        lemma_hex_of_shape(bytes@);
    }
    s
}

/// A fresh random id: `hex32_from_random` of sixteen bytes drawn from the
/// system's random source; none where that source fails.
pub fn gen_hex32() -> (r: Option<String>)
    ensures
        r matches Some(s) ==> is_hex32_id(s@) && exists|b: Seq<u8>| b.len() == 16 && s@ == hex_of(v4_bytes(b)),
{
    match random_bytes() {
        Some(raw) => {
            let s = hex32_from_random(raw);
            assert(raw@.len() == 16);
            Some(s)
        },
        None => None,
    }
}

/// Whether `s` is one of `used`.
pub fn contains_string(used: &Vec<String>, s: &str) -> (r: bool)
    ensures
        r == exists|j: int| 0 <= j < used.len() && used@[j]@ == s@,
{
    let mut i: usize = 0;
    while i < used.len()
        invariant
            i <= used.len(),
            forall|j: int| 0 <= j < i ==> used@[j]@ != s@,
        decreases used.len() - i,
    {
        if str_equal(used[i].as_str(), s) {
            return true;
        }
        i += 1;
    }
    false
}

/// The 16 bytes of counter `k`, big-endian.
pub open spec fn counter_bytes(k: u128) -> Seq<u8> {
    Seq::new(16, |i: int| ((k >> (8 * (15 - i)) as u128) & 0xff) as u8)
}

proof fn lemma_counter_bytes_injective(a: u128, b: u128)
    requires
        counter_bytes(a) == counter_bytes(b),
    ensures
        a == b,
{
    let x = counter_bytes(a);
    let y = counter_bytes(b);
    assert(x[0] == y[0] && x[1] == y[1] && x[2] == y[2] && x[3] == y[3]);
    assert(x[4] == y[4] && x[5] == y[5] && x[6] == y[6] && x[7] == y[7]);
    assert(x[8] == y[8] && x[9] == y[9] && x[10] == y[10] && x[11] == y[11]);
    assert(x[12] == y[12] && x[13] == y[13] && x[14] == y[14] && x[15] == y[15]);
    assert(((a >> 120u128) & 0xff) as u8 == ((b >> 120u128) & 0xff) as u8
        && ((a >> 112u128) & 0xff) as u8 == ((b >> 112u128) & 0xff) as u8
        && ((a >> 104u128) & 0xff) as u8 == ((b >> 104u128) & 0xff) as u8
        && ((a >> 96u128) & 0xff) as u8 == ((b >> 96u128) & 0xff) as u8
        && ((a >> 88u128) & 0xff) as u8 == ((b >> 88u128) & 0xff) as u8
        && ((a >> 80u128) & 0xff) as u8 == ((b >> 80u128) & 0xff) as u8
        && ((a >> 72u128) & 0xff) as u8 == ((b >> 72u128) & 0xff) as u8
        && ((a >> 64u128) & 0xff) as u8 == ((b >> 64u128) & 0xff) as u8
        && ((a >> 56u128) & 0xff) as u8 == ((b >> 56u128) & 0xff) as u8
        && ((a >> 48u128) & 0xff) as u8 == ((b >> 48u128) & 0xff) as u8
        && ((a >> 40u128) & 0xff) as u8 == ((b >> 40u128) & 0xff) as u8
        && ((a >> 32u128) & 0xff) as u8 == ((b >> 32u128) & 0xff) as u8
        && ((a >> 24u128) & 0xff) as u8 == ((b >> 24u128) & 0xff) as u8
        && ((a >> 16u128) & 0xff) as u8 == ((b >> 16u128) & 0xff) as u8
        && ((a >> 8u128) & 0xff) as u8 == ((b >> 8u128) & 0xff) as u8
        && ((a >> 0u128) & 0xff) as u8 == ((b >> 0u128) & 0xff) as u8 ==> a == b) by (bit_vector);
}

/// The fallback id number `k`.
pub open spec fn counter_id(k: u128) -> Seq<char> {
    hex_of(counter_bytes(k))
}

proof fn lemma_counter_id_injective(a: u128, b: u128)
    requires
        counter_id(a) == counter_id(b),
    ensures
        a == b,
{
    lemma_hex_of_injective(counter_bytes(a), counter_bytes(b));
    lemma_counter_bytes_injective(a, b);
}

/// Among the `n + 1` fallback ids `0..=n`, one is not among `n` used strings.
proof fn lemma_free_counter_id(used: Seq<Seq<char>>, n: u128)
    requires
        used.len() <= n,
        n < u128::MAX,
    ensures
        exists|k: u128| k <= n && !used.contains(counter_id(k)),
{
    if forall|k: u128| k <= n ==> used.contains(counter_id(k)) {
        let f = |i: int| counter_id(i as u128);
        let range = set_int_range(0, n + 1);
        lemma_int_range(0, n + 1);
        let image = range.map(f);
        assert(injective_on(f, range)) by {
            assert forall|x: int, y: int| range.contains(x) && range.contains(y) && #[trigger] f(x) == #[trigger] f(y) implies x == y by {
                lemma_counter_id_injective(x as u128, y as u128);
            }
        }
        lemma_map_size(range, image, f);
        assert(image.subset_of(used.to_set())) by {
            assert forall|s: Seq<char>| image.contains(s) implies used.to_set().contains(s) by {
                let i = choose|i: int| range.contains(i) && f(i) == s;
                assert(used.contains(counter_id(i as u128)));
            }
        }
        used.lemma_cardinality_of_set();
        lemma_len_subset(image, used.to_set());
        assert(false);
    }
}

/// A fresh id that is not among `used`, which then holds it too.
///
/// Random ids are tried first; should a few of them all be taken, or the
/// random source fail, the first free counter id is taken instead.
pub fn unique_hex32(used: &mut Vec<String>) -> (r: String)
    ensures
        is_hex32_id(r@),
        forall|j: int| 0 <= j < old(used)@.len() ==> old(used)@[j]@ != r@,
        final(used)@ == old(used)@.push(r),
{
    let mut attempt: usize = 0;
    while attempt < 16
        invariant
            used@ == old(used)@,
        decreases 16 - attempt,
    {
        match gen_hex32() {
            Some(candidate) => {
                if !contains_string(used, candidate.as_str()) {
                    used.push(candidate.clone());
                    return candidate;
                }
            },
            None => {},
        }
        attempt += 1;
    }
    let ghost views = Seq::new(used@.len(), |j: int| used@[j]@);
    let n: u128 = used.len() as u128;
    proof {
        lemma_free_counter_id(views, n);
    }
    let mut k: u128 = 0;
    while k <= n
        invariant
            used@ == old(used)@,
            n == used.len(),
            views == Seq::new(used@.len(), |j: int| used@[j]@),
            exists|k2: u128| k2 <= n && !views.contains(counter_id(k2)),
            forall|k2: u128| k2 < k ==> views.contains(counter_id(k2)),
        decreases n + 1 - k,
    {
        let bytes = counter_bytes_exec(k);
        let candidate = hex_encode(&bytes);
        proof {
            lemma_hex_of_shape(bytes@);
        }
        if !contains_string(used, candidate.as_str()) {
            proof {
                assert forall|j: int| 0 <= j < old(used)@.len() implies old(used)@[j]@ != candidate@ by {
                    assert(used@[j]@ != candidate@);
                }
            }
            used.push(candidate.clone());
            return candidate;
        }
        proof {
            let j = choose|j: int| 0 <= j < used.len() && used@[j]@ == candidate@;
            assert(views[j] == counter_id(k));
        }
        k += 1;
    }
    proof {
        let k2 = choose|k2: u128| k2 <= n && !views.contains(counter_id(k2));
        assert(views.contains(counter_id(k2)));
    }
    String::new()
}

pub fn counter_bytes_exec(k: u128) -> (r: Vec<u8>)
    ensures
        r@ == counter_bytes(k),
{
    let mut r: Vec<u8> = Vec::new();
    let mut j: usize = 0;
    while j < 16
        invariant
            j <= 16,
            r@ == Seq::new(j as nat, |i: int| ((k >> (8 * (15 - i)) as u128) & 0xff) as u8),
        decreases 16 - j,
    {
        let shift: u128 = (8 * (15 - j)) as u128;
        r.push(((k >> shift) & 0xff) as u8);
        assert(r@ =~= Seq::new((j + 1) as nat, |i: int| ((k >> (8 * (15 - i)) as u128) & 0xff) as u8));
        j += 1;
    }
    r
}

} // verus!
