//! Volume keys and drive letters of Windows paths, and the classification of a volume as
//! rotational (HDD) from the storage descriptors the system reports for it.
//!
//! Chroma jobs on rotational volumes are started with a stagger; a volume that cannot be
//! classified is treated as rotational.
use vstd::prelude::*;

use crate::text::{
    append_str, chars_of, char_is_ascii_alpha, char_to_ascii_upper, contains_text, eq_str,
    find_text, is_ascii_alpha, lower_chars, occurs_at, replace_char, replace_chars, string_of,
    trim_chars, upper, upper_chars, ascii_upper, lower, trim,
};

verus! {

/// Bumped when detection logic changes so stale cache entries are not reused.
pub const ROTATIONAL_CACHE_PREFIX: &'static str = "r4:";

pub const BUS_TYPE_NVME: u32 = 17;

pub const BUS_TYPE_SD: u32 = 12;

pub const BUS_TYPE_MMC: u32 = 13;

pub const BUS_TYPE_UFS: u32 = 19;

/// Offset of the bus type in a `STORAGE_DEVICE_DESCRIPTOR`.
pub const STORAGE_DEVICE_BUS_TYPE_OFFSET: usize = 28;

/// Size of a `DEVICE_SEEK_PENALTY_DESCRIPTOR` (two `u32` and a byte, padded).
pub const SEEK_PENALTY_DESCRIPTOR_SIZE: usize = 12;

/// Size of the `VOLUME_DISK_EXTENTS` header.
pub const DISK_EXTENTS_HEADER_SIZE: usize = 8;

/// Size of one `DISK_EXTENT`.
pub const DISK_EXTENT_SIZE: usize = 24;

// ---------------------------------------------------------------------------------------------
// Keys and drive letters
// ---------------------------------------------------------------------------------------------

/// A volume key: `\` as `/`, ASCII upper-cased (`s:\` → `S:/`).
pub open spec fn volume_key(volume: Seq<char>) -> Seq<char> {
    upper(replace_char(volume, '\\', '/'))
}

pub fn normalize_volume_key(volume: &str) -> (r: String)
    ensures
        r@ == volume_key(volume@),
{
    let v = chars_of(volume);
    string_of(&upper_chars(&replace_chars(&v, '\\', '/')))
}

/// The cache key of a volume's classification.
pub fn rotational_cache_key(volume: &str) -> (r: String)
    ensures
        r@ == ROTATIONAL_CACHE_PREFIX@ + volume@,
{
    let mut v = chars_of(ROTATIONAL_CACHE_PREFIX);
    append_str(&mut v, volume);
    string_of(&v)
}

/// The first index at which `t` occurs in `s`.
pub open spec fn first_occurrence(s: Seq<char>, t: Seq<char>) -> Option<int> {
    if contains_text(s, t) {
        Some(
            choose|i: int|
                occurs_at(s, t, i) && forall|j: int| 0 <= j < i ==> !occurs_at(s, t, j),
        )
    } else {
        None
    }
}

/// The last ASCII letter of a text.
pub open spec fn last_alpha(s: Seq<char>) -> Option<char>
    decreases s.len(),
{
    if s.len() == 0 {
        None
    } else if is_ascii_alpha(s.last()) {
        Some(s.last())
    } else {
        last_alpha(s.drop_last())
    }
}

/// The drive letter of a path or volume key: in the volume-key form of the text, the last
/// ASCII letter before the first `:/` (`S:\foo`, `\\?\S:\foo`, `//?/S:/` all give `S`).
pub open spec fn drive_letter(key: Seq<char>) -> Option<char> {
    let u = volume_key(key);
    match first_occurrence(u, ":/"@) {
        Some(i) => last_alpha(u.take(i)),
        None => None,
    }
}

proof fn lemma_first_occurrence(s: Seq<char>, t: Seq<char>, i: int)
    requires
        occurs_at(s, t, i),
        forall|j: int| 0 <= j < i ==> !occurs_at(s, t, j),
    ensures
        first_occurrence(s, t) == Some(i),
{
    let c = choose|c: int| occurs_at(s, t, c) && forall|j: int| 0 <= j < c ==> !occurs_at(s, t, j);
    assert(occurs_at(s, t, c));
    if c < i {
        assert(!occurs_at(s, t, c));
    } else if c > i {
        assert(!occurs_at(s, t, i));
    }
}

pub fn drive_letter_from_volume_key(key: &str) -> (r: Option<char>)
    ensures
        r == drive_letter(key@),
{
    let k = chars_of(key);
    let u = upper_chars(&replace_chars(&k, '\\', '/'));
    let pat = chars_of(":/");
    match find_text(&u, &pat) {
        Some(colon) => {
            proof {
                lemma_first_occurrence(u@, ":/"@, colon as int);
            }
            let mut j: usize = colon;
            while j > 0 && !char_is_ascii_alpha(u[j - 1])
                invariant
                    j <= colon,
                    colon <= u.len(),
                    last_alpha(u@.take(colon as int)) == last_alpha(u@.take(j as int)),
                decreases j,
            {
                assert(u@.take(j as int).drop_last() =~= u@.take(j - 1));
                assert(u@.take(j as int).last() == u@[j - 1]);
                j = j - 1;
            }
            if j == 0 {
                None
            } else {
                assert(u@.take(j as int).last() == u@[j - 1]);
                Some(u[j - 1])
            }
        },
        None => None,
    }
}

/// The drive letter of a file path (see [`drive_letter`]).
pub fn drive_letter_from_path(path: &str) -> (r: Option<char>)
    ensures
        r == drive_letter(path@),
{
    drive_letter_from_volume_key(path)
}

/// The volume of a path when its text names the drive: `X:/` for drive letter `x`; `None` for
/// an empty path or one without a drive letter (those need the system's answer).
pub fn drive_volume_path(path: &str) -> (r: Option<String>)
    ensures
        path@.len() == 0 ==> r is None,
        path@.len() > 0 ==> match drive_letter(path@) {
            Some(c) => r is Some && r->0@ == seq![ascii_upper(c), ':', '/'],
            None => r is None,
        },
{
    let p = chars_of(path);
    if p.len() == 0 {
        return None;
    }
    match drive_letter_from_volume_key(path) {
        Some(letter) => {
            let mut v: Vec<char> = Vec::new();
            v.push(char_to_ascii_upper(letter));
            v.push(':');
            v.push('/');
            assert(v@ =~= seq![ascii_upper(letter), ':', '/']);
            Some(string_of(&v))
        },
        None => None,
    }
}

/// The volume key of what the system reports as a path's volume; `None` when it reports nothing.
pub fn volume_key_from_system(reported: &str) -> (r: Option<String>)
    ensures
        reported@.len() == 0 ==> r is None,
        reported@.len() > 0 ==> r is Some && r->0@ == volume_key(reported@),
{
    let v = chars_of(reported);
    if v.len() == 0 {
        None
    } else {
        Some(normalize_volume_key(reported))
    }
}

// ---------------------------------------------------------------------------------------------
// Storage descriptors
// ---------------------------------------------------------------------------------------------

/// A little-endian `u32` at byte `off`.
pub open spec fn le_u32(b: Seq<u8>, off: int) -> nat {
    (b[off] as nat) + 256 * (b[off + 1] as nat) + 65536 * (b[off + 2] as nat) + 16777216 * (
    b[off + 3] as nat)
}

/// Reads a little-endian `u32` at byte `off`.
pub fn read_le_u32(b: &[u8], off: usize) -> (r: u32)
    requires
        off + 4 <= b.len(),
    ensures
        r == le_u32(b@, off as int),
{
    (b[off] as u32) + 256 * (b[off + 1] as u32) + 65536 * (b[off + 2] as u32) + 16777216 * (b[off
        + 3] as u32)
}

/// Bus types whose media never rotate (NVMe, SD, MMC, UFS); others say nothing.
pub open spec fn bus_rotational(bus_type: u32) -> Option<bool> {
    if bus_type == BUS_TYPE_NVME || bus_type == BUS_TYPE_SD || bus_type == BUS_TYPE_MMC
        || bus_type == BUS_TYPE_UFS {
        Some(false)
    } else {
        None
    }
}

pub fn bus_type_implies_rotational(bus_type: u32) -> (r: Option<bool>)
    ensures
        r == bus_rotational(bus_type),
{
    if bus_type == BUS_TYPE_NVME || bus_type == BUS_TYPE_SD || bus_type == BUS_TYPE_MMC
        || bus_type == BUS_TYPE_UFS {
        Some(false)
    } else {
        None
    }
}

/// The seek-penalty descriptor: rotational exactly when the device incurs a seek penalty.
pub fn rotational_from_seek_penalty(descriptor: &[u8]) -> (r: Option<bool>)
    ensures
        descriptor@.len() < SEEK_PENALTY_DESCRIPTOR_SIZE ==> r is None,
        descriptor@.len() >= SEEK_PENALTY_DESCRIPTOR_SIZE ==> r == Some(descriptor@[8] != 0),
{
    if descriptor.len() < SEEK_PENALTY_DESCRIPTOR_SIZE {
        return None;
    }
    Some(descriptor[8] != 0)
}

/// What a rotation-rate descriptor says: no RPM reported, or 0/1 RPM, means non-rotating; an
/// unknown rate (`0xFFFF_FFFF`) or one below 1000 says nothing; 1000 RPM or more rotates.
pub open spec fn rotation_rate_rotational(descriptor: Seq<u8>) -> Option<bool> {
    if descriptor.len() < 16 {
        None
    } else if descriptor[8] == 0 {
        Some(false)
    } else {
        let rpm = le_u32(descriptor, 12);
        if rpm == 0 || rpm == 1 {
            Some(false)
        } else if rpm == 0xFFFF_FFFF {
            None
        } else if rpm >= 1000 {
            Some(true)
        } else {
            None
        }
    }
}

pub fn rotational_from_rotation_rate(descriptor: &[u8]) -> (r: Option<bool>)
    ensures
        r == rotation_rate_rotational(descriptor@),
{
    if descriptor.len() < 16 {
        return None;
    }
    if descriptor[8] == 0 {
        return Some(false);
    }
    let rpm = read_le_u32(descriptor, 12);
    if rpm == 0 || rpm == 1 {
        return Some(false);
    }
    if rpm == 0xFFFF_FFFF {
        return None;
    }
    if rpm >= 1000 {
        return Some(true);
    }
    None
}

/// What a device descriptor's bus type says (see [`bus_rotational`]).
pub fn rotational_from_bus_type(descriptor: &[u8]) -> (r: Option<bool>)
    ensures
        descriptor@.len() <= STORAGE_DEVICE_BUS_TYPE_OFFSET + 4 ==> r is None,
        descriptor@.len() > STORAGE_DEVICE_BUS_TYPE_OFFSET + 4 ==> r == bus_rotational(
            le_u32(descriptor@, STORAGE_DEVICE_BUS_TYPE_OFFSET as int) as u32,
        ),
{
    if descriptor.len() <= STORAGE_DEVICE_BUS_TYPE_OFFSET + 4 {
        return None;
    }
    let bus = read_le_u32(descriptor, STORAGE_DEVICE_BUS_TYPE_OFFSET);
    bus_type_implies_rotational(bus)
}

/// The first known answer: seek penalty, then rotation rate, then bus type.
pub fn first_known(seek: Option<bool>, rate: Option<bool>, bus: Option<bool>) -> (r: Option<bool>)
    ensures
        r == (if seek is Some {
            seek
        } else if rate is Some {
            rate
        } else {
            bus
        }),
{
    if seek.is_some() {
        seek
    } else if rate.is_some() {
        rate
    } else {
        bus
    }
}

/// The disk numbers of a `VOLUME_DISK_EXTENTS` answer (the bytes the system returned): the
/// extent count is the first `u32`; each extent is 24 bytes after the 8-byte header and starts
/// with its disk number. `None` when the answer is shorter than its header or its extents.
pub open spec fn extent_disks(data: Seq<u8>) -> Option<Seq<u32>> {
    if data.len() < DISK_EXTENTS_HEADER_SIZE {
        None
    } else {
        let count = le_u32(data, 0);
        if data.len() < DISK_EXTENTS_HEADER_SIZE + count * DISK_EXTENT_SIZE {
            None
        } else {
            Some(
                Seq::new(
                    count,
                    |i: int|
                        le_u32(
                            data,
                            DISK_EXTENTS_HEADER_SIZE + i * DISK_EXTENT_SIZE,
                        ) as u32,
                ),
            )
        }
    }
}

pub fn disk_numbers_from_extents(data: &[u8]) -> (r: Option<Vec<u32>>)
    ensures
        match extent_disks(data@) {
            Some(ds) => r is Some && r->0@ == ds,
            None => r is None,
        },
{
    if data.len() < DISK_EXTENTS_HEADER_SIZE {
        return None;
    }
    let count = read_le_u32(data, 0) as usize;
    if count > (data.len() - DISK_EXTENTS_HEADER_SIZE) / DISK_EXTENT_SIZE {
        assert(data.len() < DISK_EXTENTS_HEADER_SIZE + count * DISK_EXTENT_SIZE) by (nonlinear_arith)
            requires
                count > (data.len() - 8) / 24,
                data.len() >= 8,
        ;
        return None;
    }
    assert(data.len() >= DISK_EXTENTS_HEADER_SIZE + count * DISK_EXTENT_SIZE) by (nonlinear_arith)
        requires
            count <= (data.len() - 8) / 24,
            data.len() >= 8,
    ;
    let ghost ds = extent_disks(data@).unwrap();
    let mut disks: Vec<u32> = Vec::new();
    let mut i: usize = 0;
    while i < count
        invariant
            i <= count,
            count == le_u32(data@, 0),
            data.len() >= DISK_EXTENTS_HEADER_SIZE + count * DISK_EXTENT_SIZE,
            ds == extent_disks(data@).unwrap(),
            ds.len() == count,
            disks@ == ds.take(i as int),
        decreases count - i,
    {
        assert(DISK_EXTENTS_HEADER_SIZE + i * DISK_EXTENT_SIZE + 4 <= data.len()) by (
        nonlinear_arith)
            requires
                i < count,
                data.len() >= 8 + count * 24,
        ;
        let off = DISK_EXTENTS_HEADER_SIZE + i * DISK_EXTENT_SIZE;
        let d = read_le_u32(data, off);
        disks.push(d);
        i = i + 1;
        assert(disks@ =~= ds.take(i as int));
    }
    assert(ds.take(count as int) =~= ds);
    Some(disks)
}

/// The classification of a volume from its backing disks: rotational when any disk rotates,
/// non-rotational when every disk is known not to, otherwise unknown.
pub open spec fn disks_rotational(disks: Seq<Option<bool>>) -> Option<bool> {
    if exists|i: int| 0 <= i < disks.len() && disks[i] == Some(true) {
        Some(true)
    } else if forall|i: int| 0 <= i < disks.len() ==> disks[i] == Some(false) {
        Some(false)
    } else {
        None
    }
}

pub fn volume_rotational_from_disks(disks: &[Option<bool>]) -> (r: Option<bool>)
    ensures
        r == disks_rotational(disks@),
{
    let mut any_rotational = false;
    let mut all_known_non_rotational = true;
    let mut i: usize = 0;
    while i < disks.len()
        invariant
            i <= disks.len(),
            any_rotational <==> exists|j: int| 0 <= j < i && disks@[j] == Some(true),
            all_known_non_rotational <==> forall|j: int| 0 <= j < i ==> disks@[j] == Some(false),
        decreases disks.len() - i,
    {
        match disks[i] {
            Some(true) => {
                any_rotational = true;
                all_known_non_rotational = false;
            },
            Some(false) => {},
            None => {
                all_known_non_rotational = false;
            },
        }
        i = i + 1;
    }
    if any_rotational {
        Some(true)
    } else if all_known_non_rotational {
        Some(false)
    } else {
        None
    }
}

/// The answer of the PowerShell media-type query: `true`/`false` (trimmed, any ASCII case), or
/// nothing.
pub fn parse_media_type_answer(output: &str) -> (r: Option<bool>)
    ensures
        r == (if lower(trim(output@)) == "true"@ {
            Some(true)
        } else if lower(trim(output@)) == "false"@ {
            Some(false)
        } else {
            None
        }),
{
    let v = lower_chars(&trim_chars(&chars_of(output)));
    if eq_str(&v, "true") {
        Some(true)
    } else if eq_str(&v, "false") {
        Some(false)
    } else {
        None
    }
}

/// Whether chroma starts on a path are staggered: as classified, and staggered when the volume
/// could not be classified.
pub fn stagger_from_classification(rotational: Option<bool>) -> (r: bool)
    ensures
        r == (match rotational {
            Some(b) => b,
            None => true,
        }),
{
    match rotational {
        Some(b) => b,
        None => true,
    }
}

} // verus!
