//! The settings of the service and their defaults.

use vstd::prelude::*;

verus! {

/// The file that settings are read from where none is named.
pub const DEFAULT_CONFIG_PATH: &'static str = "moe-counter-rs.toml";

/// Where the counts are kept.
#[derive(Debug, Clone)]
pub struct Sqlite {
    /// The database file.
    pub path: String,
    /// The table of counts in it.
    pub table_name: String,
}

impl Default for Sqlite {
    /// The table `count` in the file `data.db`.
    fn default() -> (sqlite: Sqlite)
        ensures
            sqlite.path@ == "data.db"@,
            sqlite.table_name@ == "count"@,
    {
        Sqlite { path: "data.db".to_owned(), table_name: "count".to_owned() }
    }
}

/// The settings of the service.
#[derive(Debug, Clone)]
pub struct Config {
    /// The address to listen on.
    pub listen: String,
    /// The port to listen on.
    pub port: u16,
    /// The directory that further themes are read from.
    pub themes_dir: String,
    /// The theme of a request that names none.
    pub default_theme: String,
    /// The least number of digits that a count is drawn with.
    pub digit_count: u32,
    /// The format of a request that names none.
    pub default_format: String,
    /// Whether SVG pictures ask for pixelated scaling.
    pub pixelated: bool,
    /// Where the counts are kept.
    pub sqlite: Sqlite,
}

impl Default for Config {
    /// The local address on port 9534, the theme `moebooru` as SVG, counts
    /// drawn with as many digits as they have.
    fn default() -> (config: Config)
        ensures
            config.listen@ == "127.0.0.1"@,
            config.port == 9534,
            config.themes_dir@ == "themes"@,
            config.default_theme@ == "moebooru"@,
            config.digit_count == 0,
            config.default_format@ == "svg"@,
            !config.pixelated,
            config.sqlite.path@ == "data.db"@,
            config.sqlite.table_name@ == "count"@,
    {
        Config {
            listen: "127.0.0.1".to_owned(),
            port: 9534,
            themes_dir: "themes".to_owned(),
            default_theme: "moebooru".to_owned(),
            digit_count: 0,
            default_format: "svg".to_owned(),
            pixelated: false,
            sqlite: Sqlite::default(),
        }
    }
}

/// What the command line says.
#[derive(Debug)]
pub struct CliArgs {
    /// The file that settings are read from.
    pub config_path: String,
}

impl Default for CliArgs {
    /// The settings file `DEFAULT_CONFIG_PATH`.
    fn default() -> (args: CliArgs)
        ensures
            args.config_path@ == DEFAULT_CONFIG_PATH@,
    {
        CliArgs { config_path: DEFAULT_CONFIG_PATH.to_owned() }
    }
}

} // verus!
