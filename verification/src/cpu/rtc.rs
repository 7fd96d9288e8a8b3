use vstd::prelude::*;

verus! {

/// The value of a byte of two binary-coded decimal digits.
pub open spec fn bcd(value: u8) -> int {
    value % 16 + (value / 16) * 10
}

/// Whether register B of the clock says values are binary-coded decimal.
pub open spec fn is_bcd_mode(reg_b: u8) -> bool {
    reg_b & 0x04 == 0
}

/// A clock register value read with register B: decoded from binary-coded
/// decimal when register B says so, as it is otherwise.
pub open spec fn decoded(value: u8, reg_b: u8) -> int {
    if is_bcd_mode(reg_b) {
        bcd(value)
    } else {
        value as int
    }
}

/// The hour of the day, from 0 to 23, read from the clock register `value`
/// with register B: in 12-hour mode (bit 1 of register B clear) the hour
/// without its afternoon bit (bit 7) is decoded and taken modulo 12, and 12
/// is added in the afternoon; in 24-hour mode the value is decoded as any
/// other, with bit 7 cleared.
pub open spec fn decoded_hours(value: u8, reg_b: u8) -> u8 {
    if reg_b & 0x02 == 0 {
        let h = decoded(value & 0x7F, reg_b) % 12;
        (if value & 0x80 != 0 { h + 12 } else { h }) as u8
    } else {
        (decoded(value, reg_b) as u8) & 0x7F
    }
}

/// The year read from the clock register `value` with register B: the
/// decoded two-digit year in 2000..2079 below 80 and in 1980..1999 above.
pub open spec fn decoded_year(value: u8, reg_b: u8) -> u16 {
    let year = decoded(value, reg_b);
    if year < 80 {
        (year + 2000) as u16
    } else {
        (year + 1900) as u16
    }
}

/// The century of a two-digit year: a decoded year `y` reads as `2000 + y`
/// when `y` is below 80 and as `1900 + y` from 80 to 99. In binary-coded
/// decimal mode (bit 2 of register B clear) the register with tens digit
/// `tens` and units digit `units` reads as `2000 + 10 * tens + units` for
/// the years 00 to 79 and as `1900 + 10 * tens + units` for 80 to 99; in
/// binary mode the register value `value` is the two-digit year itself.
pub proof fn lemma_year_century(value: u8, reg_b: u8, tens: u8, units: u8)
    ensures
        0 <= decoded(value, reg_b) < 80 ==> decoded_year(value, reg_b) == 2000 + decoded(value, reg_b),
        80 <= decoded(value, reg_b) <= 99 ==> decoded_year(value, reg_b) == 1900 + decoded(value, reg_b),
        reg_b & 0x04 == 0 && tens < 8 && units < 10 && value == 16 * tens + units ==> decoded_year(value, reg_b) == 2000 + 10 * tens + units,
        reg_b & 0x04 == 0 && 8 <= tens < 10 && units < 10 && value == 16 * tens + units ==> decoded_year(value, reg_b) == 1900 + 10 * tens + units,
        reg_b & 0x04 != 0 && value < 80 ==> decoded_year(value, reg_b) == 2000 + value,
        reg_b & 0x04 != 0 && 80 <= value <= 99 ==> decoded_year(value, reg_b) == 1900 + value,
{
}

/// The real-time clock of the machine. The clock's registers are read at
/// the port; these methods decode the values read.
pub struct RtClock {}

impl RtClock {
    /// The clock.
    pub fn new() -> (c: Self) {
        RtClock {  }
    }

    /// Decodes a byte of two binary-coded decimal digits.
    fn bcd_to_binary(&self, value: u8) -> (v: u8)
        ensures
            v == bcd(value),
    {
        proof {
            vstd::bits::lemma_u8_low_bits_mask_is_mod(value, 4);
            vstd::bits::lemma_low_bits_mask_values();
            vstd::arithmetic::power2::lemma2_to64();
        }
        (value & 0xF) + ((value / 16) * 10)
    }

    /// Decodes a register value read with register B `reg_b`.
    fn decode(&self, value: u8, reg_b: u8) -> (v: u8)
        ensures
            v == decoded(value, reg_b),
    {
        if reg_b & 0x04 == 0 {
            return self.bcd_to_binary(value);
        }
        value
    }

    /// The seconds, from the seconds register (register 0) and register B.
    pub fn read_seconds(&self, value: u8, reg_b: u8) -> (s: u8)
        ensures
            s == decoded(value, reg_b),
    {
        self.decode(value, reg_b)
    }

    /// The minutes, from the minutes register (register 2) and register B.
    pub fn read_minutes(&self, value: u8, reg_b: u8) -> (m: u8)
        ensures
            m == decoded(value, reg_b),
    {
        self.decode(value, reg_b)
    }

    /// The hour of the day, from 0 to 23, from the hours register (register
    /// 4) and register B.
    pub fn read_hours(&self, value: u8, reg_b: u8) -> (h: u8)
        ensures
            h == decoded_hours(value, reg_b),
    {
        if reg_b & 0x02 == 0 {
            let hours = self.decode(value & 0x7F, reg_b) % 12;
            if (value & 0x80) != 0 {
                hours + 12
            } else {
                hours
            }
        } else {
            self.decode(value, reg_b) & 0x7F
        }
    }

    /// The day of the week, from the weekday register (register 6) and
    /// register B.
    pub fn read_weekday(&self, value: u8, reg_b: u8) -> (d: u8)
        ensures
            d == decoded(value, reg_b),
    {
        self.decode(value, reg_b)
    }

    /// The day of the month, from its register (register 7) and register B.
    pub fn read_day_of_month(&self, value: u8, reg_b: u8) -> (d: u8)
        ensures
            d == decoded(value, reg_b),
    {
        self.decode(value, reg_b)
    }

    /// The month, from the month register (register 8) and register B.
    pub fn read_month(&self, value: u8, reg_b: u8) -> (m: u8)
        ensures
            m == decoded(value, reg_b),
    {
        self.decode(value, reg_b)
    }

    /// The year, from the year register (register 9) and register B.
    pub fn read_year(&self, value: u8, reg_b: u8) -> (y: u16)
        ensures
            y == decoded_year(value, reg_b),
    {
        let mut year = self.decode(value, reg_b) as u16;
        if year < 80 {
            year += 2000;
        } else {
            year += 1900;
        }
        year
    }

    /// The time as hours, minutes and seconds, from their registers and
    /// register B.
    pub fn read_time(&self, hours: u8, minutes: u8, seconds: u8, reg_b: u8) -> (t: (u8, u8, u8))
        ensures
            t == (decoded_hours(hours, reg_b), decoded(minutes, reg_b) as u8, decoded(
                seconds,
                reg_b,
            ) as u8),
    {
        (self.read_hours(hours, reg_b), self.read_minutes(minutes, reg_b), self.read_seconds(seconds, reg_b))
    }

    /// The date as day of the month, month and year, from their registers
    /// and register B.
    pub fn read_date(&self, day: u8, month: u8, year: u8, reg_b: u8) -> (d: (u8, u8, u16))
        ensures
            d == (decoded(day, reg_b) as u8, decoded(month, reg_b) as u8, decoded_year(year, reg_b)),
    {
        (self.read_day_of_month(day, reg_b), self.read_month(month, reg_b), self.read_year(year, reg_b))
    }
}

} // verus!
