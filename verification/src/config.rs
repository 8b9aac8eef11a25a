//! The configuration data the application loads and saves as JSON.
//!
//! The serialization itself happens outside the library, on a mirror of
//! these types; here live the data and the default contents.

use vstd::prelude::*;

verus! {

/// Color choice stored in the configuration.
#[derive(Debug, Clone, PartialEq, Eq, Structural)]
pub enum Color {
    Red,
    Green,
    Blue,
    RgbColor(u8, u8, u8),
}

/// The application's configuration.
#[derive(Debug)]
pub struct Config {
    pub some_setting: String,
    pub color: Color,
    pub enabled_features: Vec<String>,
}

/// The configuration written on first run: a placeholder setting, black,
/// and two example features.
pub fn generate_default_config() -> (c: Config)
    ensures
        c.some_setting@ == "some value"@,
        c.color == Color::RgbColor(0, 0, 0),
        c.enabled_features@.len() == 2,
        c.enabled_features@[0]@ == "feature1"@,
        c.enabled_features@[1]@ == "feature2"@,
{
    let mut enabled_features: Vec<String> = Vec::new();
    enabled_features.push("feature1".to_string());
    enabled_features.push("feature2".to_string());
    Config {
        some_setting: "some value".to_string(),
        color: Color::RgbColor(0, 0, 0),
        enabled_features,
    }
}

} // verus!
