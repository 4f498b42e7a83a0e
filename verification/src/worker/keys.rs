//! Key bytes: how a key id is written on the wire.

use crate::config::KeyFormat;
use vstd::prelude::*;

verus! {

/// `n` without its `k` lowest hexadecimal digits.
pub open spec fn shifted(n: nat, k: nat) -> nat
    decreases k,
{
    if k == 0 {
        n
    } else {
        shifted(n, (k - 1) as nat) / 16
    }
}

/// The lowercase hexadecimal digit of a number below sixteen.
pub open spec fn hex(d: nat) -> u8 {
    if d < 10 {
        (48 + d) as u8
    } else {
        (87 + d) as u8
    }
}

/// Digit `k` of `n`, counted from the lowest.
pub open spec fn nibble(n: nat, k: nat) -> u8 {
    hex(shifted(n, k) % 16)
}

/// Whether a UUID has a dash at this index.
pub open spec fn is_dash(i: int) -> bool {
    i == 8 || i == 13 || i == 18 || i == 23
}

/// How many digits of a UUID stand to the right of index `i`.
pub open spec fn digits_after(i: int) -> nat {
    (35 - i - (if i < 23 {
        1int
    } else {
        0
    }) - (if i < 18 {
        1int
    } else {
        0
    }) - (if i < 13 {
        1int
    } else {
        0
    }) - (if i < 8 {
        1int
    } else {
        0
    })) as nat
}

/// The byte at index `i` of a key of `len` bytes: the digits of the id, right
/// aligned; in a UUID, with dashes after the groups of 8-4-4-4-12 digits.
pub open spec fn key_byte(id: nat, len: nat, format: KeyFormat, i: int) -> u8 {
    if format == KeyFormat::Uuid && len == 36 {
        if is_dash(i) {
            45
        } else {
            nibble(id, digits_after(i))
        }
    } else {
        nibble(id, (len - 1 - i) as nat)
    }
}

/// The key of an id.
pub open spec fn key_bytes(id: nat, len: nat, format: KeyFormat) -> Seq<u8> {
    Seq::new(len, |i: int| key_byte(id, len, format, i))
}

fn hex_digit(d: u8) -> (r: u8)
    requires
        d < 16,
    ensures
        r == hex(d as nat),
{
    if d < 10 {
        48 + d
    } else {
        87 + d
    }
}

/// Write a numeric key id into the buffer: hex digits right-aligned, or a
/// dashed UUID where that is asked for and the buffer has its length.
pub fn write_key(buf: &mut Vec<u8>, id: usize, format: KeyFormat)
    ensures
        final(buf)@ == key_bytes(id as nat, old(buf)@.len(), format),
{
    let len: usize = buf.len();
    let uuid = format == KeyFormat::Uuid && len == 36;
    let mut n: usize = id;
    let mut i: usize = len;
    while i > 0
        invariant
            i <= len,
            len == buf@.len(),
            len == old(buf)@.len(),
            uuid == (format == KeyFormat::Uuid && len == 36),
            forall|j: int| i <= j < len ==> buf@[j] == key_byte(id as nat, len as nat, format, j),
            n == shifted(
                id as nat,
                if uuid {
                    digits_after(i - 1)
                } else {
                    (len - i) as nat
                },
            ) || i == 0,
        decreases i,
    {
        i = i - 1;
        if uuid && (i == 8 || i == 13 || i == 18 || i == 23) {
            buf.set(i, 45);
            assert(i > 0 ==> digits_after(i as int) == digits_after(i - 1));
        } else {
            buf.set(i, hex_digit((n % 16) as u8));
            n = n / 16;
        }
    }
    assert(buf@ =~= key_bytes(id as nat, len as nat, format));
}

/// The key of an id, `len` bytes long.
pub fn render_key(id: usize, len: usize, format: KeyFormat) -> (r: Vec<u8>)
    ensures
        r@ == key_bytes(id as nat, len as nat, format),
{
    let mut buf: Vec<u8> = vec![0u8; len];
    write_key(&mut buf, id, format);
    buf
}

/// Equal digits above and at a place mean equal numbers from there on.
proof fn lemma_same_digits(a: nat, b: nat, k: nat, top: nat)
    requires
        k <= top,
        shifted(a, top) == shifted(b, top),
        forall|j: nat| k <= j < top ==> #[trigger] nibble(a, j) == nibble(b, j),
    ensures
        shifted(a, k) == shifted(b, k),
    decreases top - k,
{
    if k < top {
        lemma_same_digits(a, b, k + 1, top);
        assert(nibble(a, k) == nibble(b, k));
        assert(shifted(a, k + 1) == shifted(a, k) / 16);
        assert(shifted(b, k + 1) == shifted(b, k) / 16);
    }
}

/// Two ids that fit into the key's hexadecimal digits have different keys.
pub proof fn hex_keys_are_distinct(a: nat, b: nat, len: nat)
    requires
        shifted(a, len) == 0,
        shifted(b, len) == 0,
        key_bytes(a, len, KeyFormat::Hex) == key_bytes(b, len, KeyFormat::Hex),
    ensures
        a == b,
{
    assert forall|j: nat| 0 <= j < len implies #[trigger] nibble(a, j) == nibble(b, j) by {
        let i = len - 1 - j;
        assert(key_bytes(a, len, KeyFormat::Hex)[i] == nibble(a, j));
        assert(key_bytes(b, len, KeyFormat::Hex)[i] == nibble(b, j));
        assert(key_bytes(a, len, KeyFormat::Hex)[i] == key_bytes(b, len, KeyFormat::Hex)[i]);
    }
    lemma_same_digits(a, b, 0, len);
}

/// Two ids have different UUIDs: thirty-two digits hold any 64-bit id.
pub proof fn uuid_keys_are_distinct(a: nat, b: nat)
    requires
        shifted(a, 32) == 0,
        shifted(b, 32) == 0,
        key_bytes(a, 36, KeyFormat::Uuid) == key_bytes(b, 36, KeyFormat::Uuid),
    ensures
        a == b,
{
    assert forall|j: nat| 0 <= j < 32 implies #[trigger] nibble(a, j) == nibble(b, j) by {
        let i: int = if j < 12 {
            35 - j
        } else if j < 16 {
            34 - j
        } else if j < 20 {
            33 - j
        } else if j < 24 {
            32 - j
        } else {
            31 - j
        };
        assert(!is_dash(i) && digits_after(i) == j);
        assert(key_bytes(a, 36, KeyFormat::Uuid)[i] == nibble(a, j));
        assert(key_bytes(b, 36, KeyFormat::Uuid)[i] == nibble(b, j));
        assert(key_bytes(a, 36, KeyFormat::Uuid)[i] == key_bytes(b, 36, KeyFormat::Uuid)[i]);
    }
    lemma_same_digits(a, b, 0, 32);
}

/// A number without its lowest hexadecimal digit, as often as wanted, is the
/// number divided by that power of sixteen.
pub proof fn digits_are_of_base_sixteen(n: nat, k: nat)
    ensures
        shifted(n, k) == n as int / vstd::arithmetic::power::pow(16, k),
    decreases k,
{
    vstd::arithmetic::power::lemma_pow0(16);
    if k > 0 {
        digits_are_of_base_sixteen(n, (k - 1) as nat);
        vstd::arithmetic::power::lemma_pow_positive(16, (k - 1) as nat);
        let p = vstd::arithmetic::power::pow(16, (k - 1) as nat);
        vstd::arithmetic::power::lemma_pow_adds(16, (k - 1) as nat, 1);
        vstd::arithmetic::power::lemma_pow1(16);
        vstd::arithmetic::div_mod::lemma_div_denominator(n as int, p, 16);
    }
}

/// The digits are those of lowercase hexadecimal numbers, in order.
pub proof fn digits_are_lowercase_hexadecimal(d: nat)
    requires
        d < 16,
    ensures
        hex(d) as char == "0123456789abcdef"@[d as int],
{
    reveal_strlit("0123456789abcdef");
}

/// A key of hexadecimal digits is the number of its id, written right-aligned
/// with leading zeros: digit `i` from the left has the weight of the places to
/// its right.
pub proof fn keys_spell_their_ids(id: nat, len: nat, i: int)
    requires
        0 <= i < len,
    ensures
        key_bytes(id, len, KeyFormat::Hex).len() == len,
        key_bytes(id, len, KeyFormat::Hex)[i] as char == "0123456789abcdef"@[(id as int
            / vstd::arithmetic::power::pow(16, (len - 1 - i) as nat)) % 16],
{
    let k = (len - 1 - i) as nat;
    digits_are_of_base_sixteen(id, k);
    digits_are_lowercase_hexadecimal(shifted(id, k) % 16);
}

/// A UUID is the key of thirty-two digits with dashes after the eighth, the
/// twelfth, the sixteenth and the twentieth digit.
pub proof fn a_uuid_is_a_dashed_key(id: nat, j: int)
    requires
        0 <= j < 32,
    ensures
        ({
            let uuid = key_bytes(id, 36, KeyFormat::Uuid);
            let digits = key_bytes(id, 32, KeyFormat::Hex);
            let at = if j < 8 {
                j
            } else if j < 12 {
                j + 1
            } else if j < 16 {
                j + 2
            } else if j < 20 {
                j + 3
            } else {
                j + 4
            };
            &&& uuid.len() == 36
            &&& uuid[at] == digits[j]
            &&& uuid[8] as char == '-' && uuid[13] as char == '-' && uuid[18] as char == '-'
                && uuid[23] as char == '-'
        }),
{
}

/// A key that is not as long as a UUID is written in digits alone, whatever the
/// format.
pub proof fn other_lengths_have_no_dashes(id: nat, len: nat)
    requires
        len != 36,
    ensures
        key_bytes(id, len, KeyFormat::Uuid) == key_bytes(id, len, KeyFormat::Hex),
{
    assert(key_bytes(id, len, KeyFormat::Uuid) =~= key_bytes(id, len, KeyFormat::Hex));
}

} // verus!
