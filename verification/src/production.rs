//! Integer decisions behind the car-production figures: which success band
//! a line speed falls in, and a car's price with insurance.
use vstd::prelude::*;

verus! {

/// The success band of a production line, by its speed.
#[derive(Debug, Clone, Copy, PartialEq, Eq)]
pub enum SpeedBand {
    /// Speeds 1 to 4: every car succeeds.
    Slow,
    /// Speeds 5 to 8.
    Medium,
    /// Speeds 9 and 10.
    Fast,
    /// Any other speed: nothing is produced.
    Stopped,
}

pub open spec fn spec_speed_band(speed: u8) -> SpeedBand {
    if 1 <= speed <= 4 {
        SpeedBand::Slow
    } else if 5 <= speed <= 8 {
        SpeedBand::Medium
    } else if 9 <= speed <= 10 {
        SpeedBand::Fast
    } else {
        SpeedBand::Stopped
    }
}

pub fn speed_band(speed: u8) -> (b: SpeedBand)
    ensures
        b == spec_speed_band(speed),
{
    if speed >= 1 && speed <= 4 {
        SpeedBand::Slow
    } else if speed >= 5 && speed <= 8 {
        SpeedBand::Medium
    } else if speed >= 9 && speed <= 10 {
        SpeedBand::Fast
    } else {
        SpeedBand::Stopped
    }
}

/// The bands by speed: 1 to 4 is slow, 5 to 8 medium, 9 and 10 fast, and
/// every other speed stops the line.
pub proof fn law_speed_bands(speed: u8)
    ensures
        1 <= speed <= 4 <==> spec_speed_band(speed) == SpeedBand::Slow,
        5 <= speed <= 8 <==> spec_speed_band(speed) == SpeedBand::Medium,
        9 <= speed <= 10 <==> spec_speed_band(speed) == SpeedBand::Fast,
        (speed == 0 || speed > 10) <==> spec_speed_band(speed) == SpeedBand::Stopped,
{
}

/// Cars a line produces per hour at speed 1.
pub const CARS_PER_HOUR: u32 = 221;

/// The monthly insurance added to a car's price.
pub fn monthly_insurence() -> (r: u32)
    ensures
        r == 123,
{
    123
}

/// A car's selling price: its price plus the monthly insurance.
pub fn selling_price(price: u32) -> (r: u32)
    requires
        price + 123 <= u32::MAX,
    ensures
        r == price + 123,
{
    price + monthly_insurence()
}

} // verus!
