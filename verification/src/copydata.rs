//! The binary records sent to the system manager's window (`MagicSpaceTurbo`)
//! in `WM_COPYDATA` messages: fixed-size, zero-filled text fields.
use vstd::prelude::*;

use crate::input_method::{utf16_encode, utf16_units};

verus! {

/// The record kind (`dwData`) of a third-party application status.
pub const THIRD_PARTY_STATUS_KIND: usize = 0x02;

/// The record kind (`dwData`) of a startup-application status.
pub const STARTUP_STATUS_KIND: usize = 0x03;

/// The first `size - 1` values at most, then zeros up to `size`: a field of
/// `size` values that always ends in a zero.
pub open spec fn fixed_field<T>(values: Seq<T>, size: nat, zero: T) -> Seq<T> {
    let n: int = if values.len() < size - 1 {
        values.len() as int
    } else {
        size - 1
    };
    values.take(n) + Seq::new((size - n) as nat, |i: int| zero)
}

/// A 32-bit integer as the receiving side reads it (little-endian).
pub open spec fn i32_le(v: i32) -> Seq<u8> {
    let u = if v < 0 {
        v + 0x1_0000_0000
    } else {
        v as int
    };
    seq![(u % 256) as u8, (u / 256 % 256) as u8, (u / 65536 % 256) as u8, (u / 16777216) as u8]
}

/// The startup-application record: the UTF-8 bytes of the name, the two
/// display names and the two descriptions in fields of 256, 256, 256, 512
/// and 512 bytes, then the status as a 32-bit 1 or 0.
pub open spec fn startup_status_record(
    name: Seq<u8>,
    display_name: Seq<u8>,
    display_name_utf8: Seq<u8>,
    description: Seq<u8>,
    description_utf8: Seq<u8>,
    status: bool,
) -> Seq<u8> {
    fixed_field(name, 256, 0u8) + fixed_field(display_name, 256, 0u8) + fixed_field(
        display_name_utf8,
        256,
        0u8,
    ) + fixed_field(description, 512, 0u8) + fixed_field(description_utf8, 512, 0u8) + i32_le(
        if status {
            1
        } else {
            0
        },
    )
}

fn push_fixed<T: Copy>(dst: &mut Vec<T>, src: &[T], size: usize, zero: T)
    requires
        size >= 1,
    ensures
        final(dst)@ == old(dst)@ + fixed_field(src@, size as nat, zero),
{
    let n = if src.len() < size - 1 {
        src.len()
    } else {
        size - 1
    };
    let ghost start = dst@;
    let mut i: usize = 0;
    while i < n
        invariant
            n <= src.len(),
            n < size,
            i <= n,
            dst@ == start + src@.take(i as int),
        decreases n - i,
    {
        dst.push(src[i]);
        assert(src@.take(i + 1) == src@.take(i as int).push(src@[i as int]));
        i = i + 1;
    }
    let mut j: usize = n;
    while j < size
        invariant
            n <= j <= size,
            n < size,
            dst@ == start + src@.take(n as int) + Seq::new((j - n) as nat, |k: int| zero),
        decreases size - j,
    {
        dst.push(zero);
        assert(Seq::new((j + 1 - n) as nat, |k: int| zero) == Seq::new((j - n) as nat, |k: int| zero).push(
            zero,
        ));
        j = j + 1;
    }
}

fn push_i32_le(dst: &mut Vec<u8>, v: i32)
    ensures
        final(dst)@ == old(dst)@ + i32_le(v),
{
    let u: u32 = if v < 0 {
        (v as i64 + 0x1_0000_0000i64) as u32
    } else {
        v as u32
    };
    dst.push((u % 256) as u8);
    dst.push((u / 256 % 256) as u8);
    dst.push((u / 65536 % 256) as u8);
    dst.push((u / 16777216) as u8);
    assert(dst@ =~= old(dst)@ + i32_le(v));
}

/// The record sent when an application's start with the system is turned
/// on or off.
pub fn startup_status_payload(
    name: &str,
    display_name: &str,
    display_name_utf8: &str,
    description: &str,
    description_utf8: &str,
    status: bool,
) -> (r: Vec<u8>)
    ensures
        r@ == startup_status_record(
            vstd::utf8::encode_utf8(name@),
            vstd::utf8::encode_utf8(display_name@),
            vstd::utf8::encode_utf8(display_name_utf8@),
            vstd::utf8::encode_utf8(description@),
            vstd::utf8::encode_utf8(description_utf8@),
            status,
        ),
{
    let mut r: Vec<u8> = Vec::new();
    push_fixed(&mut r, name.as_bytes(), 256, 0u8);
    push_fixed(&mut r, display_name.as_bytes(), 256, 0u8);
    push_fixed(&mut r, display_name_utf8.as_bytes(), 256, 0u8);
    push_fixed(&mut r, description.as_bytes(), 512, 0u8);
    push_fixed(&mut r, description_utf8.as_bytes(), 512, 0u8);
    push_i32_le(&mut r, if status { 1 } else { 0 });
    r
}

/// UTF-16 code units as bytes, low byte first.
pub open spec fn units_le(u: Seq<u16>) -> Seq<u8> {
    Seq::new(2 * u.len(), |i: int| if i % 2 == 0 { (u[i / 2] % 256) as u8 } else { (u[i / 2] / 256) as u8 })
}

/// The third-party application record: the UTF-16 text of the category,
/// the application's name and the status in fields of 64, 128 and 32 code
/// units, each unit low byte first.
pub open spec fn third_party_status_record(category: Seq<char>, app_name: Seq<char>, status: Seq<char>) -> Seq<u8> {
    units_le(
        fixed_field(utf16_encode(category), 64, 0u16) + fixed_field(utf16_encode(app_name), 128, 0u16)
            + fixed_field(utf16_encode(status), 32, 0u16),
    )
}

fn units_to_le_bytes(u: &Vec<u16>) -> (r: Vec<u8>)
    requires
        2 * u@.len() <= usize::MAX,
    ensures
        r@ == units_le(u@),
{
    let mut r: Vec<u8> = Vec::new();
    let mut i: usize = 0;
    while i < u.len()
        invariant
            i <= u.len(),
            r@.len() == 2 * i,
            forall|k: int| 0 <= k < 2 * i ==> #[trigger] r@[k] == units_le(u@)[k],
        decreases u.len() - i,
    {
        let ghost before = r@;
        r.push((u[i] % 256) as u8);
        r.push((u[i] / 256) as u8);
        proof {
            assert forall|k: int| 0 <= k < 2 * (i + 1) implies #[trigger] r@[k] == units_le(u@)[k] by {
                if k < 2 * i {
                    assert(r@[k] == before[k]);
                } else if k == 2 * i {
                    assert(k / 2 == i as int);
                } else {
                    assert(k / 2 == i as int);
                }
            }
        }
        i = i + 1;
    }
    assert(r@ =~= units_le(u@));
    r
}

/// The record sent when a third-party application's control status
/// changes.
pub fn third_party_status_payload(category: &str, app_name: &str, status: &str) -> (r: Vec<u8>)
    ensures
        r@ == third_party_status_record(category@, app_name@, status@),
{
    let mut units: Vec<u16> = Vec::new();
    let c = utf16_units(category);
    push_fixed(&mut units, c.as_slice(), 64, 0u16);
    let a = utf16_units(app_name);
    push_fixed(&mut units, a.as_slice(), 128, 0u16);
    let s = utf16_units(status);
    push_fixed(&mut units, s.as_slice(), 32, 0u16);
    assert(units@ =~= fixed_field(utf16_encode(category@), 64, 0u16) + fixed_field(utf16_encode(app_name@), 128, 0u16)
        + fixed_field(utf16_encode(status@), 32, 0u16));
    units_to_le_bytes(&units)
}

proof fn lemma_fixed_field<T>(values: Seq<T>, size: nat, zero: T)
    requires
        size >= 1,
    ensures
        fixed_field(values, size, zero).len() == size,
        fixed_field(values, size, zero)[size - 1] == zero,
{
}

/// A startup-application record is always 1796 bytes, and each of its text
/// fields ends in a zero byte, however long the texts are.
pub proof fn lemma_startup_record_layout(
    name: Seq<u8>,
    display_name: Seq<u8>,
    display_name_utf8: Seq<u8>,
    description: Seq<u8>,
    description_utf8: Seq<u8>,
    status: bool,
)
    ensures
        ({
            let r = startup_status_record(name, display_name, display_name_utf8, description, description_utf8, status);
            &&& r.len() == 1796
            &&& r[255] == 0 && r[511] == 0 && r[767] == 0 && r[1279] == 0 && r[1791] == 0
        }),
{
    lemma_fixed_field(name, 256, 0u8);
    lemma_fixed_field(display_name, 256, 0u8);
    lemma_fixed_field(display_name_utf8, 256, 0u8);
    lemma_fixed_field(description, 512, 0u8);
    lemma_fixed_field(description_utf8, 512, 0u8);
}

/// A third-party application record is always 448 bytes, and each of its
/// three text fields ends in a zero code unit.
pub proof fn lemma_third_party_record_layout(category: Seq<char>, app_name: Seq<char>, status: Seq<char>)
    ensures
        ({
            let r = third_party_status_record(category, app_name, status);
            &&& r.len() == 448
            &&& r[126] == 0 && r[127] == 0
            &&& r[382] == 0 && r[383] == 0
            &&& r[446] == 0 && r[447] == 0
        }),
{
    let a = fixed_field(utf16_encode(category), 64, 0u16);
    let b = fixed_field(utf16_encode(app_name), 128, 0u16);
    let c = fixed_field(utf16_encode(status), 32, 0u16);
    lemma_fixed_field(utf16_encode(category), 64, 0u16);
    lemma_fixed_field(utf16_encode(app_name), 128, 0u16);
    lemma_fixed_field(utf16_encode(status), 32, 0u16);
    let u = a + b + c;
    assert(u[63] == 0 && u[191] == 0 && u[223] == 0);
    let r = units_le(u);
    assert(r[126] == (u[63] % 256) as u8);
    assert(r[127] == (u[63] / 256) as u8);
    assert(r[382] == (u[191] % 256) as u8);
    assert(r[383] == (u[191] / 256) as u8);
    assert(r[446] == (u[223] % 256) as u8);
    assert(r[447] == (u[223] / 256) as u8);
}

} // verus!
