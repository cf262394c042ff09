//! A race distance in miles, furlongs and yards, derived from a total yard
//! count, with a display helper.

use vstd::prelude::*;
use vstd::string::StringExecFns;

use crate::text::dec_digits;

verus! {

/// Yards in a mile.
pub const YARDS_IN_MILE: u32 = 1760;

/// Yards in a furlong.
pub const YARDS_IN_FURLONG: u32 = 220;

/// Represents a race distance in miles, furlongs, and yards.
#[derive(Debug, PartialEq, Eq, Structural)]
pub struct RaceDistance {
    pub miles: u32,
    pub furlongs: u32,
    pub yards: u32,
}

/// The display text of a distance: space-separated mile, furlong and yard
/// segments, with zero segments dropped, and `0y` for the zero distance.
pub open spec fn distance_text(mi: nat, fu: nat, ya: nat) -> Seq<char> {
    if mi == 0 && fu == 0 && ya == 0 {
        seq!['0', 'y']
    } else {
        (if mi > 0 {
            dec_digits(mi) + seq!['m']
        } else {
            Seq::<char>::empty()
        }) + (if fu > 0 {
            (if mi > 0 {
                seq![' ']
            } else {
                Seq::<char>::empty()
            }) + dec_digits(fu) + seq!['f']
        } else {
            Seq::<char>::empty()
        }) + (if ya > 0 {
            (if mi > 0 || fu > 0 {
                seq![' ']
            } else {
                Seq::<char>::empty()
            }) + dec_digits(ya) + seq!['y']
        } else {
            Seq::<char>::empty()
        })
    }
}

impl RaceDistance {
    /// Creates a `RaceDistance` from a total distance in yards.
    pub fn from_yards(total_yards: u32) -> (r: Self)
        ensures
            r.miles == total_yards / YARDS_IN_MILE,
            r.furlongs == (total_yards % YARDS_IN_MILE) / YARDS_IN_FURLONG,
            r.yards == (total_yards % YARDS_IN_MILE) % YARDS_IN_FURLONG,
    {
        let miles = total_yards / YARDS_IN_MILE;
        let yards_after_miles = total_yards % YARDS_IN_MILE;

        let furlongs = yards_after_miles / YARDS_IN_FURLONG;
        let yards = yards_after_miles % YARDS_IN_FURLONG;

        Self { miles, furlongs, yards }
    }

    /// Renders the distance, for example `1m 6f 20y` or `0y`.
    pub fn to_display_string(&self) -> (s: String)
        ensures
            s@ == distance_text(self.miles as nat, self.furlongs as nat, self.yards as nat),
    {
        proof {
            reveal_strlit("0y");
            reveal_strlit("m");
            reveal_strlit("f");
            reveal_strlit("y");
            reveal_strlit(" ");
        }
        if self.miles == 0 && self.furlongs == 0 && self.yards == 0 {
            let s = String::from_str("0y");
            proof {
                assert(s@ =~= distance_text(
                    self.miles as nat,
                    self.furlongs as nat,
                    self.yards as nat,
                ));
            }
            return s;
        }
        let mut s = String::new();
        if self.miles > 0 {
            let t = crate::text::u128_to_string(self.miles as u128);
            s.append(t.as_str());
            s.append("m");
        }
        if self.furlongs > 0 {
            if self.miles > 0 {
                s.append(" ");
            }
            let t = crate::text::u128_to_string(self.furlongs as u128);
            s.append(t.as_str());
            s.append("f");
        }
        if self.yards > 0 {
            if self.miles > 0 || self.furlongs > 0 {
                s.append(" ");
            }
            let t = crate::text::u128_to_string(self.yards as u128);
            s.append(t.as_str());
            s.append("y");
        }
        proof {
            assert(s@ =~= distance_text(
                self.miles as nat,
                self.furlongs as nat,
                self.yards as nat,
            ));
        }
        s
    }
}

} // verus!
