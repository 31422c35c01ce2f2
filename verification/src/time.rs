//! Moments in time.

use vstd::prelude::*;
use crate::outside::{
    four_digit_year, leap_in_place, read_rfc3339, representable, rfc3339_read, rfc3339_text,
    write_rfc3339,
};

verus! {

/// A moment in UTC: seconds since the start of 1970, and nanoseconds.
#[derive(Clone, Copy, Debug, PartialEq, Eq)]
pub struct Timestamp {
    secs: i64,
    nanos: u32,
}

impl View for Timestamp {
    type V = (i64, u32);

    closed spec fn view(&self) -> (i64, u32) {
        (self.secs, self.nanos)
    }
}

impl Timestamp {
    #[verifier::type_invariant]
    spec fn valid(self) -> bool {
        representable(self.secs as int, self.nanos as int)
    }

    /// The moment `secs` seconds and `nanos` nanoseconds after the start of
    /// 1970, if it can be represented.
    pub fn new(secs: i64, nanos: u32) -> (r: Option<Timestamp>)
        ensures
            match r {
                Some(t) => representable(secs as int, nanos as int) && t@ == (secs, nanos),
                None => !representable(secs as int, nanos as int),
            },
            r is Some <==> -8334601228800 <= secs <= 8210266876799 && nanos < 2_000_000_000,
    {
        if secs < -8334601228800 || secs > 8210266876799 || nanos >= 2_000_000_000 {
            return None;
        }
        Some(Timestamp { secs, nanos })
    }

    /// The whole seconds since the start of 1970.
    pub fn secs(&self) -> (r: i64)
        ensures
            r == self@.0,
    {
        self.secs
    }

    /// The nanoseconds past them.
    pub fn nanos(&self) -> (r: u32)
        ensures
            r == self@.1,
    {
        self.nanos
    }

    /// The RFC 3339 text of this moment.
    pub fn to_rfc3339(&self) -> (r: String)
        ensures
            r@ == rfc3339_text(self@.0, self@.1),
            four_digit_year(self@.0 as int) && leap_in_place(self@.0 as int, self@.1 as int) ==> {
                &&& rfc3339_read(r@) is Ok
                &&& rfc3339_read(r@)->Ok_0 == self@
            },
    {
        proof {
            use_type_invariant(self);
        }
        write_rfc3339(self.secs, self.nanos)
    }

    /// The moment whose RFC 3339 text is `s`, or what is wrong with `s`.
    pub fn from_rfc3339(s: &str) -> (r: Result<Timestamp, String>)
        ensures
            match r {
                Ok(t) => rfc3339_read(s@) is Ok && rfc3339_read(s@)->Ok_0 == t@,
                Err(fault) => rfc3339_read(s@) is Err && rfc3339_read(s@)->Err_0 == fault@,
            },
    {
        match read_rfc3339(s) {
            Ok((secs, nanos)) => Ok(Timestamp { secs, nanos }),
            Err(fault) => Err(fault),
        }
    }
}

} // verus!
