//! `~/.config/jotter/config.toml`. Every field is optional; a missing file
//! means defaults.

use vstd::prelude::*;

use crate::markdown;
#[allow(unused_imports)]
use crate::markdown::joined_path;
use crate::text;
#[allow(unused_imports)]
use crate::text::opt_view;

verus! {

pub struct Config {
    /// Images taller than this many terminal rows are downscaled once.
    pub max_image_rows: u16,
    /// Output rows shown per cell before it becomes a scrollable viewport.
    pub max_output_rows: usize,
    /// Seconds between autosave checks.
    pub autosave_secs: u64,
    /// Syntax theme: base16-ocean.dark (default), base16-ocean.light,
    /// base16-eighties.dark, base16-mocha.dark, InspiredGitHub,
    /// Solarized (dark), Solarized (light).
    pub theme: String,
    /// Cell editor backend: "builtin" (default), or "nvim" — an embedded
    /// `nvim --embed` owns text/mode/registers. Falls back to builtin when
    /// nvim is missing or dies.
    pub editor: String,
    /// The nvim backend loads the user's config and plugins.
    pub nvim_user_config: bool,
    /// Static analysis for every completion, instead of only where live
    /// objects give nothing.
    pub jedi: bool,
    /// Open completion after a `.` that follows a name.
    pub complete_on_dot: bool,
}

#[verifier::ext_equal]
pub struct ConfigView {
    pub max_image_rows: u16,
    pub max_output_rows: usize,
    pub autosave_secs: u64,
    pub theme: Seq<char>,
    pub editor: Seq<char>,
    pub nvim_user_config: bool,
    pub jedi: bool,
    pub complete_on_dot: bool,
}

impl View for Config {
    type V = ConfigView;

    open spec fn view(&self) -> ConfigView {
        ConfigView {
            max_image_rows: self.max_image_rows,
            max_output_rows: self.max_output_rows,
            autosave_secs: self.autosave_secs,
            theme: self.theme@,
            editor: self.editor@,
            nvim_user_config: self.nvim_user_config,
            jedi: self.jedi,
            complete_on_dot: self.complete_on_dot,
        }
    }
}

pub open spec fn default_config() -> ConfigView {
    ConfigView {
        max_image_rows: 18,
        max_output_rows: 15,
        autosave_secs: 30,
        theme: "base16-ocean.dark"@,
        editor: "builtin"@,
        nvim_user_config: true,
        jedi: false,
        complete_on_dot: true,
    }
}

impl Default for Config {
    fn default() -> (r: Config)
        ensures
            r@ == default_config(),
    {
        Config {
            max_image_rows: 18,
            max_output_rows: 15,
            autosave_secs: 30,
            theme: "base16-ocean.dark".to_owned(),
            editor: "builtin".to_owned(),
            nvim_user_config: true,
            jedi: false,
            complete_on_dot: true,
        }
    }
}

/// The configuration in force: what was loaded, else the defaults.
pub fn get(loaded: Option<Config>) -> (r: Config)
    ensures
        r@ == match loaded {
            Some(c) => c@,
            None => default_config(),
        },
{
    match loaded {
        Some(c) => c,
        None => Config::default(),
    }
}

/// Where the configuration is: in `$XDG_CONFIG_HOME`, else in `.config` of
/// `$HOME`.
pub open spec fn config_path(xdg: Option<Seq<char>>, home: Option<Seq<char>>) -> Option<
    Seq<char>,
> {
    match (xdg, home) {
        (Some(d), _) => Some(joined_path(d, "jotter/config.toml"@)),
        (None, Some(h)) => Some(joined_path(joined_path(h, ".config"@), "jotter/config.toml"@)),
        (None, None) => None,
    }
}

/// Where the configuration is, given `$XDG_CONFIG_HOME` and `$HOME`.
pub fn path(xdg: Option<String>, home: Option<String>) -> (r: Option<String>)
    ensures
        opt_view(r) == config_path(opt_view(xdg), opt_view(home)),
{
    match xdg {
        Some(d) => Some(markdown::join_path(d.as_str(), "jotter/config.toml")),
        None => match home {
            Some(h) => {
                let c = markdown::join_path(h.as_str(), ".config");
                Some(markdown::join_path(c.as_str(), "jotter/config.toml"))
            },
            None => None,
        },
    }
}

/// Where state that outlives a session is kept: in `$XDG_STATE_HOME`, else in
/// `.local/state` of `$HOME`.
pub open spec fn state_path(xdg: Option<Seq<char>>, home: Option<Seq<char>>) -> Option<
    Seq<char>,
> {
    match (xdg, home) {
        (Some(d), _) => Some(joined_path(d, "jotter"@)),
        (None, Some(h)) => Some(joined_path(joined_path(h, ".local/state"@), "jotter"@)),
        (None, None) => None,
    }
}

/// Where state is kept, given `$XDG_STATE_HOME` and `$HOME`.
pub fn state_dir(xdg: Option<String>, home: Option<String>) -> (r: Option<String>)
    ensures
        opt_view(r) == state_path(opt_view(xdg), opt_view(home)),
{
    match xdg {
        Some(d) => Some(markdown::join_path(d.as_str(), "jotter")),
        None => match home {
            Some(h) => {
                let c = markdown::join_path(h.as_str(), ".local/state");
                Some(markdown::join_path(c.as_str(), "jotter"))
            },
            None => None,
        },
    }
}

// ---------------------------------------------------------------------------
// Reading
// ---------------------------------------------------------------------------

/// A value of a TOML table: those that a configuration has, and the kind of
/// the others.
pub enum Setting {
    Integer(i64),
    Boolean(bool),
    Text(String),
    Float,
    Datetime,
    Array,
    Table,
}

pub enum SettingView {
    Integer(i64),
    Boolean(bool),
    Text(Seq<char>),
    Float,
    Datetime,
    Array,
    Table,
}

impl View for Setting {
    type V = SettingView;

    open spec fn view(&self) -> SettingView {
        match *self {
            Setting::Integer(i) => SettingView::Integer(i),
            Setting::Boolean(b) => SettingView::Boolean(b),
            Setting::Text(s) => SettingView::Text(s@),
            Setting::Float => SettingView::Float,
            Setting::Datetime => SettingView::Datetime,
            Setting::Array => SettingView::Array,
            Setting::Table => SettingView::Table,
        }
    }
}

pub open spec fn setting_views(v: Seq<(String, Setting)>) -> Seq<(Seq<char>, SettingView)> {
    v.map_values(|e: (String, Setting)| (e.0@, e.1@))
}

/// What a TOML document holds at its top level, key by key; or what is wrong
/// with it.
pub uninterp spec fn toml_table(text: Seq<char>) -> Result<
    Seq<(Seq<char>, SettingView)>,
    Seq<char>,
>;

pub open spec fn table_view(r: Result<Vec<(String, Setting)>, String>) -> Result<
    Seq<(Seq<char>, SettingView)>,
    Seq<char>,
> {
    match r {
        Ok(v) => Ok(setting_views(v@)),
        Err(e) => Err(e@),
    }
}

/// `toml::Table`'s `FromStr`: the top-level entries of a TOML document, a
/// float, date, array or table by its kind alone; or the parser's message.
#[verifier::external_body]
fn parse_toml(text: &str) -> (r: Result<Vec<(String, Setting)>, String>)
    ensures
        table_view(r) == toml_table(text@),
{
    let table = text.parse::<toml::Table>().map_err(|e| e.to_string())?;
    Ok(table.into_iter().map(|(k, v)| match v {
        toml::Value::Integer(i) => (k, Setting::Integer(i)),
        toml::Value::Boolean(b) => (k, Setting::Boolean(b)),
        toml::Value::String(s) => (k, Setting::Text(s)),
        toml::Value::Float(_) => (k, Setting::Float),
        toml::Value::Datetime(_) => (k, Setting::Datetime),
        toml::Value::Array(_) => (k, Setting::Array),
        toml::Value::Table(_) => (k, Setting::Table),
    }).collect())
}

/// Why a configuration is not taken.
pub enum ConfigError {
    /// The file is no TOML; the parser's message.
    Syntax(String),
    UnknownKey(String),
    /// The value of this key has the wrong type, or does not fit.
    BadValue(String),
}

pub enum ConfigErrorView {
    Syntax(Seq<char>),
    UnknownKey(Seq<char>),
    BadValue(Seq<char>),
}

impl View for ConfigError {
    type V = ConfigErrorView;

    open spec fn view(&self) -> ConfigErrorView {
        match *self {
            ConfigError::Syntax(s) => ConfigErrorView::Syntax(s@),
            ConfigError::UnknownKey(s) => ConfigErrorView::UnknownKey(s@),
            ConfigError::BadValue(s) => ConfigErrorView::BadValue(s@),
        }
    }
}

/// With one setting applied.
pub open spec fn applied(c: ConfigView, k: Seq<char>, v: SettingView) -> Result<
    ConfigView,
    ConfigErrorView,
> {
    let bad = Err(ConfigErrorView::BadValue(k));
    if k == "max_image_rows"@ {
        match v {
            SettingView::Integer(i) if 0 <= i <= u16::MAX => Ok(
                ConfigView { max_image_rows: i as u16, ..c },
            ),
            _ => bad,
        }
    } else if k == "max_output_rows"@ {
        match v {
            SettingView::Integer(i) if 0 <= i <= usize::MAX => Ok(
                ConfigView { max_output_rows: i as usize, ..c },
            ),
            _ => bad,
        }
    } else if k == "autosave_secs"@ {
        match v {
            SettingView::Integer(i) if 0 <= i => Ok(ConfigView { autosave_secs: i as u64, ..c }),
            _ => bad,
        }
    } else if k == "theme"@ {
        match v {
            SettingView::Text(s) => Ok(ConfigView { theme: s, ..c }),
            _ => bad,
        }
    } else if k == "editor"@ {
        match v {
            SettingView::Text(s) => Ok(ConfigView { editor: s, ..c }),
            _ => bad,
        }
    } else if k == "nvim_user_config"@ {
        match v {
            SettingView::Boolean(b) => Ok(ConfigView { nvim_user_config: b, ..c }),
            _ => bad,
        }
    } else if k == "jedi"@ {
        match v {
            SettingView::Boolean(b) => Ok(ConfigView { jedi: b, ..c }),
            _ => bad,
        }
    } else if k == "complete_on_dot"@ {
        match v {
            SettingView::Boolean(b) => Ok(ConfigView { complete_on_dot: b, ..c }),
            _ => bad,
        }
    } else {
        Err(ConfigErrorView::UnknownKey(k))
    }
}

/// The defaults with settings applied in turn; the first that cannot be
/// applied is the error.
pub open spec fn configured(s: Seq<(Seq<char>, SettingView)>) -> Result<
    ConfigView,
    ConfigErrorView,
>
    decreases s.len(),
{
    if s.len() == 0 {
        Ok(default_config())
    } else {
        match configured(s.drop_last()) {
            Ok(c) => applied(c, s.last().0, s.last().1),
            Err(e) => Err(e),
        }
    }
}

/// The configuration that a file holds.
pub open spec fn parsed_config(text: Seq<char>) -> Result<ConfigView, ConfigErrorView> {
    match toml_table(text) {
        Ok(s) => configured(s),
        Err(e) => Err(ConfigErrorView::Syntax(e)),
    }
}

pub open spec fn config_result(r: Result<Config, ConfigError>) -> Result<
    ConfigView,
    ConfigErrorView,
> {
    match r {
        Ok(c) => Ok(c@),
        Err(e) => Err(e@),
    }
}

fn apply(c: Config, k: &str, v: &Setting) -> (r: Result<Config, ConfigError>)
    ensures
        config_result(r) == applied(c@, k@, v@),
{
    let mut c = c;
    let bad = ConfigError::BadValue(k.to_owned());
    if text::same(k, "max_image_rows") {
        match v {
            Setting::Integer(i) => {
                if *i < 0 || *i > 65535 {
                    return Err(bad);
                }
                c.max_image_rows = *i as u16;
            },
            _ => {
                return Err(bad);
            },
        }
    } else if text::same(k, "max_output_rows") {
        match v {
            Setting::Integer(i) => {
                if *i < 0 || *i as u64 > usize::MAX as u64 {
                    return Err(bad);
                }
                c.max_output_rows = *i as usize;
            },
            _ => {
                return Err(bad);
            },
        }
    } else if text::same(k, "autosave_secs") {
        match v {
            Setting::Integer(i) => {
                if *i < 0 {
                    return Err(bad);
                }
                c.autosave_secs = *i as u64;
            },
            _ => {
                return Err(bad);
            },
        }
    } else if text::same(k, "theme") {
        match v {
            Setting::Text(s) => {
                c.theme = s.clone();
            },
            _ => {
                return Err(bad);
            },
        }
    } else if text::same(k, "editor") {
        match v {
            Setting::Text(s) => {
                c.editor = s.clone();
            },
            _ => {
                return Err(bad);
            },
        }
    } else if text::same(k, "nvim_user_config") {
        match v {
            Setting::Boolean(b) => {
                c.nvim_user_config = *b;
            },
            _ => {
                return Err(bad);
            },
        }
    } else if text::same(k, "jedi") {
        match v {
            Setting::Boolean(b) => {
                c.jedi = *b;
            },
            _ => {
                return Err(bad);
            },
        }
    } else if text::same(k, "complete_on_dot") {
        match v {
            Setting::Boolean(b) => {
                c.complete_on_dot = *b;
            },
            _ => {
                return Err(bad);
            },
        }
    } else {
        return Err(ConfigError::UnknownKey(k.to_owned()));
    }
    Ok(c)
}

/// The configuration that settings make.
pub fn from_settings(s: &Vec<(String, Setting)>) -> (r: Result<Config, ConfigError>)
    ensures
        config_result(r) == configured(setting_views(s@)),
{
    let ghost all = setting_views(s@);
    let mut c = Config::default();
    let mut i: usize = 0;
    while i < s.len()
        invariant
            i <= s@.len(),
            all == setting_views(s@),
            configured(all.take(i as int)) == Ok::<ConfigView, ConfigErrorView>(c@),
        decreases s@.len() - i,
    {
        assert(all.take(i + 1).drop_last() =~= all.take(i as int));
        assert(all.take(i + 1).last() == (s@[i as int].0@, s@[i as int].1@));
        match apply(c, s[i].0.as_str(), &s[i].1) {
            Ok(next) => {
                c = next;
            },
            Err(e) => {
                proof {
                    lemma_first_bad(all, i + 1);
                }
                return Err(e);
            },
        }
        i += 1;
    }
    assert(all.take(i as int) =~= all);
    Ok(c)
}

proof fn lemma_first_bad(s: Seq<(Seq<char>, SettingView)>, n: int)
    requires
        0 <= n <= s.len(),
        configured(s.take(n)) is Err,
    ensures
        configured(s) == configured(s.take(n)),
    decreases s.len(),
{
    if n == s.len() {
        assert(s.take(n) =~= s);
    } else {
        assert(s.drop_last().take(n) =~= s.take(n));
        lemma_first_bad(s.drop_last(), n);
    }
}

/// The configuration that a file holds.
pub fn parse(text: &str) -> (r: Result<Config, ConfigError>)
    ensures
        config_result(r) == parsed_config(text@),
{
    match parse_toml(text) {
        Ok(s) => from_settings(&s),
        Err(e) => Err(ConfigError::Syntax(e)),
    }
}

/// The configuration for a file's text (`None` where there is no file), and a
/// user-facing warning if the file is invalid; defaults apply then. The host's
/// reader, which knows the place in the file and the expected keys, gives the
/// `complaint`.
pub fn init(path: &str, text: Option<String>, complaint: &str) -> (r: (Config, Option<String>))
    ensures
        match text {
            None => r.0@ == default_config() && r.1 is None,
            Some(t) => match parsed_config(t@) {
                Ok(c) => r.0@ == c && r.1 is None,
                Err(_) => r.0@ == default_config() && opt_view(r.1) == Some(
                    "config ignored ("@ + path@ + "): "@ + complaint@,
                ),
            },
        },
{
    match text {
        None => (get(None), None),
        Some(t) => match parse(t.as_str()) {
            Ok(c) => (c, None),
            Err(_) => {
                let mut s = "config ignored (".to_owned();
                s.append(path);
                s.append("): ");
                s.append(complaint);
                (get(None), Some(s))
            },
        },
    }
}

/// Keys that are not given keep their defaults.
pub proof fn law_missing_keys_keep_defaults(k: Seq<char>, v: SettingView)
    requires
        configured(seq![(k, v)]) is Ok,
    ensures
        configured(Seq::empty()) == Ok::<ConfigView, ConfigErrorView>(default_config()),
        k != "theme"@ ==> configured(seq![(k, v)])->Ok_0.theme == default_config().theme,
        k != "editor"@ ==> configured(seq![(k, v)])->Ok_0.editor == default_config().editor,
        k != "max_image_rows"@ ==> configured(seq![(k, v)])->Ok_0.max_image_rows == 18,
        k != "max_output_rows"@ ==> configured(seq![(k, v)])->Ok_0.max_output_rows == 15,
        k != "autosave_secs"@ ==> configured(seq![(k, v)])->Ok_0.autosave_secs == 30,
{
    let s = seq![(k, v)];
    assert(s.drop_last() =~= Seq::empty());
    assert(configured(s.drop_last()) == Ok::<ConfigView, ConfigErrorView>(default_config()));
}

} // verus!
