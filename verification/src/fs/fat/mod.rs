use vstd::prelude::*;
use vstd::wrapping::u8_specs::wrapping_add;

pub mod boot_sector;
pub mod dir_entry;
pub mod directory_entry;
pub mod fat_driver;
pub mod fat_write;
pub mod read_back;
pub mod long_dir_entry;
pub mod long_directory_entry;

verus! {

/// The 8.3 short name built from the first `n` characters of a name, with
/// the place where the next character goes: characters fill the name part
/// from place 0, a dot moves to the extension at place 8, and characters past
/// the 11 places are dropped; unused places hold spaces.
pub open spec fn short_name_upto(name: Seq<char>, n: nat) -> (Seq<u8>, int)
    decreases n,
{
    if n == 0 {
        (Seq::new(11, |i: int| 0x20u8), 0)
    } else {
        let (s, idx) = short_name_upto(name, (n - 1) as nat);
        let c = name[n - 1];
        if idx == 11 {
            (s, idx)
        } else if c == '.' {
            (s, 8)
        } else {
            (s.update(idx, c as u8), idx + 1)
        }
    }
}

/// The 8.3 short name of `name` (see [`short_name_upto`]).
pub open spec fn short_name_of(name: Seq<char>) -> Seq<u8> {
    short_name_upto(name, name.len()).0
}

/// The checksum of the first `n` bytes of a short name: each step rotates
/// the sum right by one bit and adds the next byte, modulo 256.
pub open spec fn checksum_upto(name: Seq<u8>, n: nat) -> u8
    decreases n,
{
    if n == 0 {
        0
    } else {
        let c = checksum_upto(name, (n - 1) as nat);
        wrapping_add((c & 1) << 7u8, wrapping_add(c >> 1u8, name[n - 1]))
    }
}

/// A short name has 11 bytes, and the place of the next character is
/// within them.
pub proof fn lemma_short_name_index(name: Seq<char>, n: nat)
    ensures
        short_name_upto(name, n).0.len() == 11,
        0 <= short_name_upto(name, n).1 <= 11,
    decreases n,
{
    if n > 0 {
        lemma_short_name_index(name, (n - 1) as nat);
    }
}

/// The 8.3 short name of `name` (see [`short_name_upto`]).
pub fn create_short_filename(name: &str) -> (short_name: [u8; 11])
    ensures
        short_name@ == short_name_of(name@),
{
    let mut short_name: [u8; 11] = [0x20u8; 11];
    let mut short_name_idx: usize = 0;
    let ghost chars = name@;
    proof {
        broadcast use vstd::string::axiom_spec_iter;
        assert(short_name@ =~= short_name_upto(chars, 0).0);
    }
    for c in it: name.chars()
        invariant
            chars == name@,
            it.seq() == chars,
            ({
                let (s, idx) = short_name_upto(chars, it.index() as nat);
                &&& short_name@ == s
                &&& short_name_idx == idx
            }),
    {
        proof {
            lemma_short_name_index(chars, it.index() as nat);
        }
        if short_name_idx == 11 {
            // The name is full: the rest of the characters are dropped.
        } else if c == '.' {
            short_name_idx = 8;
        } else {
            short_name[short_name_idx] = c as u8;
            short_name_idx += 1;
        }
    }
    short_name
}

/// The checksum of a short name that ties long name entries to it.
pub fn calculate_checksum(short_name: &[u8]) -> (checksum: u8)
    ensures
        checksum == checksum_upto(short_name@, short_name@.len()),
{
    let mut checksum: u8 = 0;
    let mut i: usize = 0;
    while i < short_name.len()
        invariant
            i <= short_name@.len(),
            checksum == checksum_upto(short_name@, i as nat),
        decreases short_name@.len() - i,
    {
        let byte = short_name[i];
        checksum = ((checksum & 1) << 7).wrapping_add((checksum >> 1).wrapping_add(byte));
        i = i + 1;
    }
    checksum
}

/// The date in the form of the file system: years since 1980 in bits 9 up,
/// the month in bits 5 to 8, the day in bits 0 to 4.
pub open spec fn fat_date(year: u16, month: u16, day: u16) -> u16 {
    (((year - 1980) as u16) << 9u16) | (month << 5u16) | day
}

/// The time in the form of the file system: the hours in bits 11 up, the
/// minutes in bits 5 to 10, the seconds (taken as 0) in bits 0 to 4.
pub open spec fn fat_time(hours: u16, minutes: u16) -> u16 {
    (hours << 11u16) | (minutes << 5u16) | 0u16
}

/// The date `year`-`month`-`day` in the form of the file system; the year
/// is 1980 or later.
pub fn convert_to_fat_date(year: u16, month: u16, day: u16) -> (date: u16)
    requires
        year >= 1980,
    ensures
        date == fat_date(year, month, day),
{
    ((year - 1980) << 9) | (month << 5) | day
}

/// The time `hours`:`minutes` in the form of the file system.
pub fn convert_to_fat_time(hours: u16, minutes: u16) -> (time: u16)
    ensures
        time == fat_time(hours, minutes),
{
    (hours << 11) | (minutes << 5) | (0)
}

/// The time and date of the file system for the clock's time
/// (hours, minutes, seconds) and date (day, month, year).
pub fn get_current_fat_time_date(time: (u8, u8, u8), date: (u8, u8, u16)) -> (r: (u16, u16))
    requires
        date.2 >= 1980,
    ensures
        r == (fat_time(time.0 as u16, time.1 as u16), fat_date(date.2, date.1 as u16, date.0 as u16)),
{
    let (hour, minute, _) = time;
    let (day, month, year) = date;
    let creation_time = convert_to_fat_time(hour as u16, minute as u16);
    let creation_date = convert_to_fat_date(year as u16, month as u16, day as u16);
    (creation_time, creation_date)
}

} // verus!
