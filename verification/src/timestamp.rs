//! Capture timestamps and the destination names derived from them.

use vstd::prelude::*;

use crate::text::{
    all_digits, dec_str, dec_val, pad2, seq_views, split_char, split_on, u16_to_dec, u8_to_dec2,
};

verus! {

/// The capture date and time of a media file, exactly as the six integer
/// components appear in the metadata extractor's output. Calendar validity is
/// not checked: each component is kept as the literal value parsed.
#[derive(Clone, Copy, Debug, PartialEq, Eq, Structural)]
pub struct ExifTime {
    pub year: u16,
    pub month: u8,
    pub day: u8,
    pub hour: u8,
    pub minute: u8,
    pub second: u8,
}

/// A timestamp component: a non-empty run of decimal digits whose value fits
/// the field it is read into.
pub open spec fn component_ok(s: Seq<char>, max: int) -> bool {
    s.len() > 0 && all_digits(s) && dec_val(s) <= max
}

/// The extractor's output grammar: `"<date> <time>"`, one space between the
/// halves, each half exactly three colon-separated integer components, the
/// date components sized `year:month:day` and the time components
/// `hour:minute:second`.
pub open spec fn well_formed_stamp(s: Seq<char>) -> bool {
    let halves = split_on(s, ' ');
    let date = split_on(halves[0], ':');
    let time = split_on(halves[1], ':');
    &&& halves.len() == 2
    &&& date.len() == 3
    &&& time.len() == 3
    &&& component_ok(date[0], u16::MAX as int)
    &&& component_ok(date[1], u8::MAX as int)
    &&& component_ok(date[2], u8::MAX as int)
    &&& component_ok(time[0], u8::MAX as int)
    &&& component_ok(time[1], u8::MAX as int)
    &&& component_ok(time[2], u8::MAX as int)
}

/// The timestamp a well-formed extractor output denotes.
pub open spec fn stamp_of(s: Seq<char>) -> ExifTime {
    let halves = split_on(s, ' ');
    let date = split_on(halves[0], ':');
    let time = split_on(halves[1], ':');
    ExifTime {
        year: dec_val(date[0]) as u16,
        month: dec_val(date[1]) as u8,
        day: dec_val(date[2]) as u8,
        hour: dec_val(time[0]) as u8,
        minute: dec_val(time[1]) as u8,
        second: dec_val(time[2]) as u8,
    }
}

impl ExifTime {
    /// Reads a timestamp from the extractor's textual output. Returns the
    /// parsed components exactly when the string fits the grammar of
    /// [`well_formed_stamp`]; any malformed string is rejected, never
    /// accepted in part.
    pub fn parse(s: &str) -> (r: Option<ExifTime>)
        ensures
            match r {
                Some(t) => well_formed_stamp(s@) && t == stamp_of(s@),
                None => !well_formed_stamp(s@),
            },
    {
        let halves = split_char(s, ' ');
        if halves.len() != 2 {
            return None;
        }
        proof {
            assert(seq_views(halves@)[0] == halves@[0]@);
            assert(seq_views(halves@)[1] == halves@[1]@);
        }
        let date = split_char(halves[0].as_str(), ':');
        let time = split_char(halves[1].as_str(), ':');
        if date.len() != 3 || time.len() != 3 {
            return None;
        }
        proof {
            assert(seq_views(date@)[0] == date@[0]@);
            assert(seq_views(date@)[1] == date@[1]@);
            assert(seq_views(date@)[2] == date@[2]@);
            assert(seq_views(time@)[0] == time@[0]@);
            assert(seq_views(time@)[1] == time@[1]@);
            assert(seq_views(time@)[2] == time@[2]@);
        }
        let year = match crate::text::parse_u16(date[0].as_str()) {
            Some(v) => v,
            None => { return None },
        };
        let month = match Self::parse_u8_field(date[1].as_str()) {
            Some(v) => v,
            None => { return None },
        };
        let day = match Self::parse_u8_field(date[2].as_str()) {
            Some(v) => v,
            None => { return None },
        };
        let hour = match Self::parse_u8_field(time[0].as_str()) {
            Some(v) => v,
            None => { return None },
        };
        let minute = match Self::parse_u8_field(time[1].as_str()) {
            Some(v) => v,
            None => { return None },
        };
        let second = match Self::parse_u8_field(time[2].as_str()) {
            Some(v) => v,
            None => { return None },
        };
        Some(ExifTime { year, month, day, hour, minute, second })
    }

    /// Reads one component that must fit a `u8`.
    fn parse_u8_field(s: &str) -> (r: Option<u8>)
        ensures
            match r {
                Some(v) => component_ok(s@, u8::MAX as int) && dec_val(s@) == v as int,
                None => !component_ok(s@, u8::MAX as int),
            },
    {
        match crate::text::parse_u16(s) {
            Some(v) => if v <= u8::MAX as u16 {
                Some(v as u8)
            } else {
                None
            },
            None => None,
        }
    }

    /// The date-derived stem of the destination file name:
    /// `year-month-day_hour.minute.second`, the month, day and time fields
    /// zero-padded to two digits so names sort with the calendar.
    pub fn file_base_name(&self) -> (r: String)
        ensures
            r@ == base_name_chars(*self),
    {
        let mut s = u16_to_dec(self.year);
        s.append("-");
        s.append(u8_to_dec2(self.month).as_str());
        s.append("-");
        s.append(u8_to_dec2(self.day).as_str());
        s.append("_");
        s.append(u8_to_dec2(self.hour).as_str());
        s.append(".");
        s.append(u8_to_dec2(self.minute).as_str());
        s.append(".");
        s.append(u8_to_dec2(self.second).as_str());
        proof {
            reveal_strlit("-");
            reveal_strlit("_");
            reveal_strlit(".");
            assert(s@ =~= base_name_chars(*self));
        }
        s
    }

    /// The date-derived directory below the destination root:
    /// `year/month/day`, with the same zero padding as the file stem.
    pub fn relative_path(&self) -> (r: String)
        ensures
            r@ == relative_path_chars(*self),
    {
        let mut s = u16_to_dec(self.year);
        s.append("/");
        s.append(u8_to_dec2(self.month).as_str());
        s.append("/");
        s.append(u8_to_dec2(self.day).as_str());
        proof {
            reveal_strlit("/");
            assert(s@ =~= relative_path_chars(*self));
        }
        s
    }
}

/// `year-month-day_hour.minute.second`.
pub open spec fn base_name_chars(t: ExifTime) -> Seq<char> {
    dec_str(t.year as nat) + seq!['-'] + pad2(t.month as nat) + seq!['-'] + pad2(t.day as nat)
        + seq!['_'] + pad2(t.hour as nat) + seq!['.'] + pad2(t.minute as nat) + seq!['.'] + pad2(
        t.second as nat,
    )
}

/// `year/month/day`.
pub open spec fn relative_path_chars(t: ExifTime) -> Seq<char> {
    dec_str(t.year as nat) + seq!['/'] + pad2(t.month as nat) + seq!['/'] + pad2(t.day as nat)
}

/// The full destination path for a source file:
/// `root/year/month/day/<stem>.<extension>`, a function of the destination
/// root, the resolved timestamp and the source file's extension alone.
pub open spec fn destination_chars(root: Seq<char>, t: ExifTime, ext: Seq<char>) -> Seq<char> {
    root + seq!['/'] + relative_path_chars(t) + seq!['/'] + base_name_chars(t) + seq!['.'] + ext
}

/// Builds the destination path for one source file.
pub fn destination_for(root: &str, t: &ExifTime, ext: &str) -> (r: String)
    ensures
        r@ == destination_chars(root@, *t, ext@),
{
    let mut s = String::from_str(root);
    s.append("/");
    s.append(t.relative_path().as_str());
    s.append("/");
    s.append(t.file_base_name().as_str());
    s.append(".");
    s.append(ext);
    proof {
        reveal_strlit("/");
        reveal_strlit(".");
        assert(s@ =~= destination_chars(root@, *t, ext@));
    }
    s
}

} // verus!
