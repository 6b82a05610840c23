//! The settings, and where everything is kept.

use vstd::prelude::*;

use crate::files;
use crate::text;

verus! {

/// The settings.
pub struct Config {
    pub base_url: String,
    pub show_qr_on_start: bool,
}

/// What a settings file says; what it leaves out has its default.
pub struct ConfigFile {
    pub base_url: Option<String>,
    pub show_qr_on_start: Option<bool>,
}

pub fn default_base_url() -> (r: String)
    ensures
        r@ == "https://remux.sh"@,
{
    "https://remux.sh".to_string()
}

pub fn default_show_qr() -> (r: bool)
    ensures
        r,
{
    true
}

impl Default for Config {
    fn default() -> (r: Self)
        ensures
            r.base_url@ == "https://remux.sh"@,
            r.show_qr_on_start,
    {
        Config { base_url: default_base_url(), show_qr_on_start: default_show_qr() }
    }
}

/// The settings that a file gives; without a readable one, the defaults.
pub open spec fn settings_of(file: Option<ConfigFile>) -> (Seq<char>, bool) {
    (
        match file {
            Some(ConfigFile { base_url: Some(url), .. }) => url@,
            _ => "https://remux.sh"@,
        },
        match file {
            Some(ConfigFile { show_qr_on_start: Some(show), .. }) => show,
            _ => true,
        },
    )
}

impl ConfigFile {
    /// Whether the file says all of the settings.
    pub open spec fn says(&self, config: Config) -> bool {
        &&& self.base_url matches Some(url) && url@ == config.base_url@
        &&& self.show_qr_on_start == Some(config.show_qr_on_start)
    }
}

/// An address as it is shown: without its scheme.
pub open spec fn display_text(url: Seq<char>) -> Seq<char> {
    text::strip_all(text::strip_all(url, "https://"@), "http://"@)
}

impl Config {
    /// The settings.
    pub open spec fn settings(&self) -> (Seq<char>, bool) {
        (self.base_url@, self.show_qr_on_start)
    }

    /// What is written to the settings file.
    pub fn stored(&self) -> (r: ConfigFile)
        ensures
            r.says(*self),
    {
        ConfigFile {
            base_url: Some(self.base_url.as_str().to_string()),
            show_qr_on_start: Some(self.show_qr_on_start),
        }
    }

    /// The settings that a file gives; without a readable one, the defaults.
    pub fn load(file: Option<ConfigFile>) -> (r: Self)
        ensures
            r.settings() == settings_of(file),
    {
        match file {
            Some(file) => Config {
                base_url: match file.base_url {
                    Some(url) => url,
                    None => default_base_url(),
                },
                show_qr_on_start: match file.show_qr_on_start {
                    Some(show) => show,
                    None => default_show_qr(),
                },
            },
            None => Config::default(),
        }
    }

    /// The base address as it is shown.
    pub fn display_base_url(&self) -> (r: &str)
        ensures
            r@ == display_text(self.base_url@),
    {
        text::trim_start_matches(
            text::trim_start_matches(self.base_url.as_str(), "https://"),
            "http://",
        )
    }
}

/// The directory of everything: `REMUX_HOME`, or `.remux` in the home directory.
pub open spec fn home_path(explicit: Option<Seq<char>>, home: Option<Seq<char>>) -> Seq<char> {
    match explicit {
        Some(path) => path,
        None => files::path_in(
            match home {
                Some(h) => h,
                None => "."@,
            },
            ".remux"@,
        ),
    }
}

/// The directory of everything, by the environment variables `REMUX_HOME` and
/// `HOME`.
pub fn remux_home(explicit: Option<&str>, home: Option<&str>) -> (r: String)
    ensures
        r@ == home_path(text::held_str(explicit), text::held_str(home)),
{
    match explicit {
        Some(path) => path.to_string(),
        None => match home {
            Some(h) => files::join_path(h, ".remux"),
            None => files::join_path(".", ".remux"),
        },
    }
}

/// The settings file in the directory of everything.
pub fn config_path(home: &str) -> (r: String)
    ensures
        r@ == files::path_in(home@, "config.toml"@),
{
    files::join_path(home, "config.toml")
}

/// The settings that were stored are the ones that are loaded.
pub proof fn stored_settings_are_loaded(config: Config, file: ConfigFile)
    requires
        file.says(config),
    ensures
        settings_of(Some(file)) == config.settings(),
{
}

/// The scheme of an address is not shown.
pub proof fn display_drops_the_scheme(host: Seq<char>)
    requires
        !"https://"@.is_prefix_of(host),
        !"http://"@.is_prefix_of(host),
    ensures
        display_text("https://"@ + host) == host,
        display_text("http://"@ + host) == host,
        display_text(host) == host,
{
    reveal_strlit("https://");
    reveal_strlit("http://");
    reveal_with_fuel(text::strip_all, 3);
    let https = "https://"@;
    let http = "http://"@;
    assert((https + host).take(8) =~= https);
    assert((https + host).skip(8) =~= host);
    assert((http + host).take(7) =~= http);
    assert((http + host).skip(7) =~= host);
    assert((http + host)[4] != https[4]);
}

/// A setting that the file gives counts, and one that it leaves out has its default,
/// whatever is with the other one.
pub proof fn settings_are_taken_one_by_one(file: ConfigFile)
    ensures
        settings_of(None) == ("https://remux.sh"@, true),
        file.base_url matches Some(url) ==> settings_of(Some(file)).0 == url@,
        file.base_url is None ==> settings_of(Some(file)).0 == "https://remux.sh"@,
        file.show_qr_on_start matches Some(show) ==> settings_of(Some(file)).1 == show,
        file.show_qr_on_start is None ==> settings_of(Some(file)).1,
{
}

/// Everything is kept where the user says, or else in `.remux` in the home directory, or in
/// the working directory where there is none.
pub proof fn everything_is_kept_in_one_place(explicit: Seq<char>, home: Seq<char>)
    requires
        home.len() > 0,
        home.last() != '/',
    ensures
        home_path(Some(explicit), Some(home)) == explicit,
        home_path(Some(explicit), None) == explicit,
        home_path(None, Some(home)) == home + "/.remux"@,
        home_path(None, None) == "./.remux"@,
{
    reveal_strlit("/.remux");
    reveal_strlit(".remux");
    reveal_strlit("./.remux");
    reveal_strlit(".");
    reveal_strlit("/");
    assert(home + "/"@ + ".remux"@ =~= home + "/.remux"@);
    assert("."@ + "/"@ + ".remux"@ =~= "./.remux"@);
}

} // verus!
