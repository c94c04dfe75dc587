//! The weather codes of a forecast, and what they stand for.

use vstd::prelude::*;

verus! {

/// The kinds of weather that have an icon of their own.
#[derive(Debug, Clone, Copy, PartialEq, Eq, Structural)]
pub enum WeatherIcon {
    Sun,
    Cloud,
    CloudFog,
    Drizzle,
    Snow,
    Thunderstorm,
}

/// The kinds of weather that have a name of their own.
#[derive(Debug, Clone, Copy, PartialEq, Eq, Structural)]
pub enum Weather {
    Clear,
    PartlyCloudy,
    Foggy,
    Drizzle,
    FreezingDrizzle,
    Rain,
    FreezingRain,
    SnowFall,
    SnowGrains,
    RainShowers,
    SnowShowers,
    Thunderstorm,
    ThunderstormWithHail,
}

/// The weather that a code of a forecast stands for, if the code is in use.
pub open spec fn weather_of(code: u8) -> Option<Weather> {
    if code == 0 {
        Some(Weather::Clear)
    } else if 1 <= code <= 3 {
        Some(Weather::PartlyCloudy)
    } else if code == 45 || code == 48 {
        Some(Weather::Foggy)
    } else if code == 51 || code == 53 || code == 55 {
        Some(Weather::Drizzle)
    } else if code == 56 || code == 57 {
        Some(Weather::FreezingDrizzle)
    } else if code == 61 || code == 63 || code == 65 {
        Some(Weather::Rain)
    } else if code == 66 || code == 67 {
        Some(Weather::FreezingRain)
    } else if code == 71 || code == 73 || code == 75 {
        Some(Weather::SnowFall)
    } else if code == 77 {
        Some(Weather::SnowGrains)
    } else if 80 <= code <= 82 {
        Some(Weather::RainShowers)
    } else if code == 85 || code == 86 {
        Some(Weather::SnowShowers)
    } else if code == 95 {
        Some(Weather::Thunderstorm)
    } else if code == 96 || code == 99 {
        Some(Weather::ThunderstormWithHail)
    } else {
        None
    }
}

impl Weather {
    /// The name of the weather, as it is shown.
    pub open spec fn label(self) -> Seq<char> {
        match self {
            Weather::Clear => "Clear"@,
            Weather::PartlyCloudy => "Partly cloudy"@,
            Weather::Foggy => "Foggy"@,
            Weather::Drizzle => "Drizzle"@,
            Weather::FreezingDrizzle => "Freezing drizzle"@,
            Weather::Rain => "Rain"@,
            Weather::FreezingRain => "Freezing rain"@,
            Weather::SnowFall => "Snow fall"@,
            Weather::SnowGrains => "Snow grains"@,
            Weather::RainShowers => "Rain showers"@,
            Weather::SnowShowers => "Snow showers"@,
            Weather::Thunderstorm => "Thunderstorm"@,
            Weather::ThunderstormWithHail => "Thunderstorm with hail"@,
        }
    }

    /// The icon that is shown for the weather. All that falls as water has the
    /// icon of drizzle, all that falls as snow but snow showers that of snow.
    pub open spec fn icon(self) -> WeatherIcon {
        match self {
            Weather::Clear => WeatherIcon::Sun,
            Weather::PartlyCloudy => WeatherIcon::Cloud,
            Weather::Foggy => WeatherIcon::CloudFog,
            Weather::Drizzle | Weather::FreezingDrizzle | Weather::Rain | Weather::FreezingRain
            | Weather::RainShowers | Weather::SnowShowers => WeatherIcon::Drizzle,
            Weather::SnowFall | Weather::SnowGrains => WeatherIcon::Snow,
            Weather::Thunderstorm | Weather::ThunderstormWithHail => WeatherIcon::Thunderstorm,
        }
    }
}

/// Whether a code of a forecast is in use.
pub fn is_weather_code(code: u8) -> (r: bool)
    ensures
        r == weather_of(code) is Some,
{
    match code {
        0 | 1 | 2 | 3 | 45 | 48 | 51 | 53 | 55 | 56 | 57 | 61 | 63 | 65 | 66 | 67 | 71 | 73 | 75 | 77
        | 80 | 81 | 82 | 85 | 86 | 95 | 96 | 99 => true,
        _ => false,
    }
}

/// The name of the weather that a code stands for.
pub fn parse_weather_code(code: u8) -> (r: &'static str)
    requires
        weather_of(code) is Some,
    ensures
        r@ == weather_of(code)->0.label(),
{
    match code {
        0 => "Clear",
        1 | 2 | 3 => "Partly cloudy",
        45 | 48 => "Foggy",
        51 | 53 | 55 => "Drizzle",
        56 | 57 => "Freezing drizzle",
        61 | 63 | 65 => "Rain",
        66 | 67 => "Freezing rain",
        71 | 73 | 75 => "Snow fall",
        77 => "Snow grains",
        80 | 81 | 82 => "Rain showers",
        85 | 86 => "Snow showers",
        95 => "Thunderstorm",
        _ => "Thunderstorm with hail",
    }
}

/// The icon of the weather that a code stands for.
pub fn weather_code_to_icon(code: u8) -> (r: WeatherIcon)
    requires
        weather_of(code) is Some,
    ensures
        r == weather_of(code)->0.icon(),
{
    match code {
        0 => WeatherIcon::Sun,
        1 | 2 | 3 => WeatherIcon::Cloud,
        45 | 48 => WeatherIcon::CloudFog,
        51 | 53 | 55 | 56 | 57 | 61 | 63 | 65 | 66 | 67 | 80 | 81 | 82 | 85 | 86 => WeatherIcon::Drizzle,
        71 | 73 | 75 | 77 => WeatherIcon::Snow,
        _ => WeatherIcon::Thunderstorm,
    }
}

} // verus!
