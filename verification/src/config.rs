//! The configuration file: what its keys mean, and how they rank against the
//! command line and the environment.

use crate::caps::ColorMode;
use crate::text;
use crate::text::{copy_str, same_text};
use crate::theme::ThemeName;
use crate::paths;
use crate::paths::find_user_file;
use vstd::prelude::*;

verus! {

/// What the configuration file sets. Absent keys defer to the next step.
#[derive(Debug, Clone, Copy, PartialEq, Eq)]
pub struct FileConfig {
    pub theme: Option<ThemeName>,
    pub color: Option<ColorMode>,
    pub no_motion: Option<bool>,
}

/// The configuration that sets nothing.
pub open spec fn no_config() -> FileConfig {
    FileConfig { theme: None, color: None, no_motion: None }
}

impl Default for FileConfig {
    fn default() -> (c: FileConfig)
        ensures
            c == no_config(),
    {
        FileConfig { theme: None, color: None, no_motion: None }
    }
}

/// A top-level value of the file, as far as any key needs it.
#[derive(Debug)]
pub enum ConfigValue {
    Text(String),
    Flag(bool),
    Number(i64),
    /// The labels of a table in file order, each with its text where it has one.
    Table(Vec<(String, Option<String>)>),
    /// A value of another type.
    Other,
}

/// What a value holds.
pub enum ConfigItem {
    Text(Seq<char>),
    Flag(bool),
    Number(i64),
    Table(Seq<(Seq<char>, Option<Seq<char>>)>),
    Other,
}

/// A text, if there is one.
pub open spec fn text_view(s: Option<String>) -> Option<Seq<char>> {
    match s {
        Some(t) => Some(t@),
        None => None,
    }
}

/// The labels and texts of a table.
pub open spec fn labelled(rows: Seq<(String, Option<String>)>) -> Seq<
    (Seq<char>, Option<Seq<char>>),
> {
    Seq::new(rows.len(), |i: int| (rows[i].0@, text_view(rows[i].1)))
}

impl View for ConfigValue {
    type V = ConfigItem;

    open spec fn view(&self) -> ConfigItem {
        match self {
            ConfigValue::Text(s) => ConfigItem::Text(s@),
            ConfigValue::Flag(b) => ConfigItem::Flag(*b),
            ConfigValue::Number(n) => ConfigItem::Number(*n),
            ConfigValue::Table(rows) => ConfigItem::Table(labelled(rows@)),
            ConfigValue::Other => ConfigItem::Other,
        }
    }
}

/// The keys and values of some entries.
pub open spec fn items(entries: Seq<(String, ConfigValue)>) -> Seq<(Seq<char>, ConfigItem)> {
    entries.map_values(|e: (String, ConfigValue)| (e.0@, e.1@))
}

/// The top-level keys and values of a TOML document in file order, or nothing
/// where the text is not one.
pub uninterp spec fn toml_items(text: Seq<char>) -> Option<Seq<(Seq<char>, ConfigItem)>>;

/// `toml::from_str` reads a document into a table that keeps the order of the
/// file. The contract names the table's keys and values, each value reduced to a
/// string, a boolean, an integer, the strings of a table or something else, and
/// says that the call fails exactly where the name has no table.
#[verifier::external_body]
fn read_toml(text: &str) -> (r: Option<Vec<(String, ConfigValue)>>)
    ensures
        r is Some <==> toml_items(text@) is Some,
        r matches Some(entries) ==> toml_items(text@) == Some(items(entries@)),
{
    let table: toml::Table = toml::from_str(text).ok()?;
    Some(table.into_iter().map(|(key, value)| (key, match value {
        toml::Value::String(s) => ConfigValue::Text(s),
        toml::Value::Boolean(b) => ConfigValue::Flag(b),
        toml::Value::Integer(n) => ConfigValue::Number(n),
        toml::Value::Float(_) => ConfigValue::Other,
        toml::Value::Datetime(_) => ConfigValue::Other,
        toml::Value::Array(_) => ConfigValue::Other,
        toml::Value::Table(t) => ConfigValue::Table(
            t.into_iter().map(|(label, v)| (label, v.as_str().map(str::to_owned))).collect(),
        ),
    })).collect())
}

/// The value of the first entry with a key.
pub open spec fn lookup(entries: Seq<(Seq<char>, ConfigItem)>, key: Seq<char>) -> Option<ConfigItem>
    decreases entries.len(),
{
    if entries.len() == 0 {
        None
    } else if entries[0].0 == key {
        Some(entries[0].1)
    } else {
        lookup(entries.drop_first(), key)
    }
}

/// The theme that a value names.
pub open spec fn theme_named(item: Option<ConfigItem>) -> Option<ThemeName> {
    match item {
        Some(ConfigItem::Text(s)) => if s == "tokyo-night"@ {
            Some(ThemeName::TokyoNight)
        } else if s == "light"@ {
            Some(ThemeName::Light)
        } else if s == "high-contrast"@ {
            Some(ThemeName::HighContrast)
        } else {
            None
        },
        _ => None,
    }
}

/// The color mode that a value names.
pub open spec fn color_named(item: Option<ConfigItem>) -> Option<ColorMode> {
    match item {
        Some(ConfigItem::Text(s)) => if s == "auto"@ {
            Some(ColorMode::Auto)
        } else if s == "always"@ {
            Some(ColorMode::Always)
        } else if s == "never"@ {
            Some(ColorMode::Never)
        } else {
            None
        },
        _ => None,
    }
}

/// The truth value that a value holds.
pub open spec fn flag_value(item: Option<ConfigItem>) -> Option<bool> {
    match item {
        Some(ConfigItem::Flag(b)) => Some(b),
        _ => None,
    }
}

/// What a file's entries configure: each key on its own, and a value that a
/// key cannot take counts as absent.
pub open spec fn config_of(entries: Seq<(Seq<char>, ConfigItem)>) -> FileConfig {
    FileConfig {
        theme: theme_named(lookup(entries, "theme"@)),
        color: color_named(lookup(entries, "color"@)),
        no_motion: flag_value(lookup(entries, "no_motion"@)),
    }
}

fn find<'a>(entries: &'a Vec<(String, ConfigValue)>, key: &str) -> (r: Option<&'a ConfigValue>)
    ensures
        r is Some <==> lookup(items(entries@), key@) is Some,
        r matches Some(v) ==> lookup(items(entries@), key@) == Some(v@),
{
    let mut i: usize = 0;
    let ghost all = items(entries@);
    assert(all.skip(0) =~= all);
    while i < entries.len()
        invariant
            i <= entries@.len(),
            all == items(entries@),
            lookup(all, key@) == lookup(all.skip(i as int), key@),
        decreases entries@.len() - i,
    {
        if same_text(entries[i].0.as_str(), key) {
            return Some(&entries[i].1);
        }
        assert(all.skip(i as int).drop_first() =~= all.skip(i + 1));
        i = i + 1;
    }
    None
}

fn theme_value(v: &ConfigValue) -> (r: Option<ThemeName>)
    ensures
        r == theme_named(Some(v@)),
{
    match v {
        ConfigValue::Text(s) => {
            if same_text(s.as_str(), "tokyo-night") {
                Some(ThemeName::TokyoNight)
            } else if same_text(s.as_str(), "light") {
                Some(ThemeName::Light)
            } else if same_text(s.as_str(), "high-contrast") {
                Some(ThemeName::HighContrast)
            } else {
                None
            }
        },
        _ => None,
    }
}

fn color_value(v: &ConfigValue) -> (r: Option<ColorMode>)
    ensures
        r == color_named(Some(v@)),
{
    match v {
        ConfigValue::Text(s) => {
            if same_text(s.as_str(), "auto") {
                Some(ColorMode::Auto)
            } else if same_text(s.as_str(), "always") {
                Some(ColorMode::Always)
            } else if same_text(s.as_str(), "never") {
                Some(ColorMode::Never)
            } else {
                None
            }
        },
        _ => None,
    }
}

fn truth_value(v: &ConfigValue) -> (r: Option<bool>)
    ensures
        r == flag_value(Some(v@)),
{
    match v {
        ConfigValue::Flag(b) => Some(*b),
        _ => None,
    }
}

/// Reads the recognised keys out of a file's entries. A key with a value that
/// it cannot take is left out on its own, and unknown keys are ignored.
pub fn from_entries(entries: &Vec<(String, ConfigValue)>) -> (c: FileConfig)
    ensures
        c == config_of(items(entries@)),
{
    let theme = match find(entries, "theme") {
        Some(v) => theme_value(v),
        None => None,
    };
    let color = match find(entries, "color") {
        Some(v) => color_value(v),
        None => None,
    };
    let no_motion = match find(entries, "no_motion") {
        Some(v) => truth_value(v),
        None => None,
    };
    FileConfig { theme, color, no_motion }
}

/// The flat list's limit where the file sets none.
pub const FLAT_CAP: usize = 1000;

/// What the configuration file sets for the flat modes and the palette.
#[derive(Debug)]
pub struct ViewConfig {
    /// The flat list's limit.
    pub flat_cap: Option<usize>,
    /// Labels and globs, in file order.
    pub patterns: Vec<(String, String)>,
    /// How many patterns were left out.
    pub ignored_patterns: usize,
    /// Labels and saved queries, in file order.
    pub queries: Vec<(String, String)>,
}

/// The same as values.
#[verifier::ext_equal]
pub struct ViewSettings {
    pub flat_cap: Option<usize>,
    pub patterns: Seq<(Seq<char>, Seq<char>)>,
    pub ignored_patterns: nat,
    pub queries: Seq<(Seq<char>, Seq<char>)>,
}

/// Pairs of texts.
pub open spec fn pairs(v: Seq<(String, String)>) -> Seq<(Seq<char>, Seq<char>)> {
    Seq::new(v.len(), |i: int| (v[i].0@, v[i].1@))
}

impl View for ViewConfig {
    type V = ViewSettings;

    open spec fn view(&self) -> ViewSettings {
        ViewSettings {
            flat_cap: self.flat_cap,
            patterns: pairs(self.patterns@),
            ignored_patterns: self.ignored_patterns as nat,
            queries: pairs(self.queries@),
        }
    }
}

/// The count that a value holds.
pub open spec fn count_value(item: Option<ConfigItem>) -> Option<usize> {
    match item {
        Some(ConfigItem::Number(n)) => if 0 <= n <= usize::MAX {
            Some(n as usize)
        } else {
            None
        },
        _ => None,
    }
}

/// The rows of a table that hold a string, in order.
pub open spec fn string_rows(rows: Seq<(Seq<char>, Option<Seq<char>>)>) -> Seq<
    (Seq<char>, Seq<char>),
>
    decreases rows.len(),
{
    if rows.len() == 0 {
        Seq::empty()
    } else {
        let before = string_rows(rows.drop_last());
        match rows.last().1 {
            Some(t) => before.push((rows.last().0, t)),
            None => before,
        }
    }
}

/// The labels of a table that hold no string, in order.
pub open spec fn bad_labels(rows: Seq<(Seq<char>, Option<Seq<char>>)>) -> Seq<Seq<char>>
    decreases rows.len(),
{
    if rows.len() == 0 {
        Seq::empty()
    } else {
        let before = bad_labels(rows.drop_last());
        match rows.last().1 {
            Some(_) => before,
            None => before.push(rows.last().0),
        }
    }
}

/// The rows of a value that is a table; another value has none.
pub open spec fn rows_of(item: Option<ConfigItem>) -> Seq<(Seq<char>, Option<Seq<char>>)> {
    match item {
        Some(ConfigItem::Table(rows)) => rows,
        _ => Seq::empty(),
    }
}

/// How many rows of a table were left out; a value that is no table is left out
/// as one.
pub open spec fn left_out(item: Option<ConfigItem>) -> nat {
    match item {
        None => 0,
        Some(ConfigItem::Table(rows)) => bad_labels(rows).len(),
        Some(_) => 1,
    }
}

/// What a file's entries set for the flat modes and the palette: each key on its
/// own, and each row of a table on its own.
pub open spec fn views_of(entries: Seq<(Seq<char>, ConfigItem)>) -> ViewSettings {
    ViewSettings {
        flat_cap: count_value(lookup(entries, "flat_cap"@)),
        patterns: string_rows(rows_of(lookup(entries, "patterns"@))),
        ignored_patterns: left_out(lookup(entries, "patterns"@)),
        queries: string_rows(rows_of(lookup(entries, "queries"@))),
    }
}

fn limit_value(v: &ConfigValue) -> (r: Option<usize>)
    ensures
        r == count_value(Some(v@)),
{
    match v {
        ConfigValue::Number(n) => if *n >= 0 && *n as u64 <= usize::MAX as u64 {
            Some(*n as usize)
        } else {
            None
        },
        _ => None,
    }
}

fn keep_strings(rows: &Vec<(String, Option<String>)>) -> (r: Vec<(String, String)>)
    ensures
        pairs(r@) == string_rows(labelled(rows@)),
        r@.len() <= rows@.len(),
        r@.len() + bad_labels(labelled(rows@)).len() == rows@.len(),
{
    let mut r: Vec<(String, String)> = Vec::new();
    let mut i: usize = 0;
    let ghost all = labelled(rows@);
    assert(all.take(0) =~= Seq::empty());
    assert(pairs(r@) =~= Seq::<(Seq<char>, Seq<char>)>::empty());
    while i < rows.len()
        invariant
            i <= rows@.len(),
            all == labelled(rows@),
            pairs(r@) == string_rows(all.take(i as int)),
            r@.len() <= i,
            r@.len() + bad_labels(all.take(i as int)).len() == i,
        decreases rows@.len() - i,
    {
        proof {
            assert(all.take(i + 1).drop_last() =~= all.take(i as int));
            assert(all.take(i + 1).last() == (rows@[i as int].0@, text_view(rows@[i as int].1)));
        }
        let ghost before = pairs(r@);
        if let Some(t) = &rows[i].1 {
            r.push((copy_str(rows[i].0.as_str()), copy_str(t.as_str())));
            assert(pairs(r@) =~= before.push((rows@[i as int].0@, t@)));
        }
        i = i + 1;
    }
    assert(all.take(i as int) =~= all);
    r
}

/// Reads out of a file's entries what they set for the flat modes and the
/// palette.
pub fn views_from_entries(entries: &Vec<(String, ConfigValue)>) -> (c: ViewConfig)
    ensures
        c@ == views_of(items(entries@)),
{
    let none: Vec<(String, Option<String>)> = Vec::new();
    assert(labelled(none@) =~= Seq::empty());
    let flat_cap = match find(entries, "flat_cap") {
        Some(v) => limit_value(v),
        None => None,
    };
    let (patterns, ignored_patterns): (Vec<(String, String)>, usize) = match find(
        entries,
        "patterns",
    ) {
        None => (keep_strings(&none), 0),
        Some(ConfigValue::Table(rows)) => {
            let kept = keep_strings(rows);
            let left: usize = rows.len() - kept.len();
            (kept, left)
        },
        Some(_) => (keep_strings(&none), 1),
    };
    let queries = match find(entries, "queries") {
        Some(ConfigValue::Table(rows)) => keep_strings(rows),
        _ => keep_strings(&none),
    };
    let c = ViewConfig { flat_cap, patterns, ignored_patterns, queries };
    assert(c@ =~= views_of(items(entries@)));
    c
}

/// Reads out of the text of a configuration file what it sets for the flat modes
/// and the palette. Text that is not TOML sets nothing.
pub fn parse_views(text: &str) -> (c: ViewConfig)
    ensures
        c@ == (match toml_items(text@) {
            Some(entries) => views_of(entries),
            None => views_of(Seq::empty()),
        }),
{
    match read_toml(text) {
        Some(entries) => views_from_entries(&entries),
        None => {
            let none: Vec<(String, ConfigValue)> = Vec::new();
            assert(items(none@) =~= Seq::empty());
            views_from_entries(&none)
        },
    }
}

/// The flat list's limit: the file's, else the default.
pub fn resolve_flat_cap(file: Option<usize>) -> (cap: usize)
    ensures
        cap == (match file {
            Some(n) => n,
            None => 1000,
        }),
{
    match file {
        Some(n) => n,
        None => FLAT_CAP,
    }
}

/// Whether an entry configures something: its key is known, and the key can take
/// its value.
pub open spec fn is_used(key: Seq<char>, item: ConfigItem) -> bool {
    ||| key == "theme"@ && theme_named(Some(item)) is Some
    ||| key == "color"@ && color_named(Some(item)) is Some
    ||| key == "no_motion"@ && flag_value(Some(item)) is Some
    ||| key == "flat_cap"@ && count_value(Some(item)) is Some
    ||| is_table_key(key) && item is Table
}

/// Whether a key takes a table of strings.
pub open spec fn is_table_key(key: Seq<char>) -> bool {
    key == "patterns"@ || key == "queries"@
}

/// What is ignored of an entry: its key, or of a table the labels that hold no
/// string, each behind the key and a dot.
pub open spec fn ignored_of(key: Seq<char>, item: ConfigItem) -> Seq<Seq<char>> {
    if !is_used(key, item) {
        seq![key]
    } else if is_table_key(key) {
        let bad = bad_labels(rows_of(Some(item)));
        Seq::new(bad.len(), |i: int| key + "."@ + bad[i])
    } else {
        Seq::empty()
    }
}

/// What is ignored of some entries, in order.
pub open spec fn ignored(entries: Seq<(Seq<char>, ConfigItem)>) -> Seq<Seq<char>>
    decreases entries.len(),
{
    if entries.len() == 0 {
        Seq::empty()
    } else {
        ignored(entries.drop_last()) + ignored_of(entries.last().0, entries.last().1)
    }
}

fn push_bad_labels(keys: &mut Vec<String>, key: &str, rows: &Vec<(String, Option<String>)>)
    ensures
        text::texts(final(keys)@) == text::texts(old(keys)@) + Seq::new(
            bad_labels(labelled(rows@)).len(),
            |i: int| key@ + "."@ + bad_labels(labelled(rows@))[i],
        ),
{
    let mut i: usize = 0;
    let ghost top = text::texts(keys@);
    let ghost all = labelled(rows@);
    assert(all.take(0) =~= Seq::empty());
    assert(text::texts(keys@) =~= top + Seq::new(
        bad_labels(all.take(0)).len(),
        |k: int| key@ + "."@ + bad_labels(all.take(0))[k],
    ));
    while i < rows.len()
        invariant
            i <= rows@.len(),
            all == labelled(rows@),
            text::texts(keys@) == top + Seq::new(
                bad_labels(all.take(i as int)).len(),
                |k: int| key@ + "."@ + bad_labels(all.take(i as int))[k],
            ),
        decreases rows@.len() - i,
    {
        let ghost now = all.take(i as int);
        let ghost next = all.take(i + 1);
        proof {
            assert(next.drop_last() =~= now);
            assert(next.last() == (rows@[i as int].0@, text_view(rows@[i as int].1)));
        }
        let ghost before = text::texts(keys@);
        if rows[i].1.is_none() {
            let mut s = copy_str(key);
            s.append(".");
            s.append(rows[i].0.as_str());
            keys.push(s);
            assert(text::texts(keys@) =~= before.push(key@ + "."@ + rows@[i as int].0@));
            assert(bad_labels(next) == bad_labels(now).push(rows@[i as int].0@));
        } else {
            assert(bad_labels(next) == bad_labels(now));
        }
        i = i + 1;
        assert(text::texts(keys@) =~= top + Seq::new(
            bad_labels(next).len(),
            |k: int| key@ + "."@ + bad_labels(next)[k],
        ));
    }
    assert(all.take(i as int) =~= all);
}

fn push_ignored(keys: &mut Vec<String>, key: &str, value: &ConfigValue)
    ensures
        text::texts(final(keys)@) == text::texts(old(keys)@) + ignored_of(key@, value@),
{
    proof {
        reveal_strlit("theme");
        reveal_strlit("color");
        reveal_strlit("no_motion");
        reveal_strlit("flat_cap");
        reveal_strlit("patterns");
        reveal_strlit("queries");
    }
    let ghost before = text::texts(keys@);
    if same_text(key, "patterns") || same_text(key, "queries") {
        if let ConfigValue::Table(rows) = value {
            assert("patterns"@[0] == 'p' && "queries"@[0] == 'q');
            push_bad_labels(keys, key, rows);
            assert(text::texts(keys@) =~= before + ignored_of(key@, value@));
            return;
        }
    }
    let used: bool = (same_text(key, "theme") && theme_value(value).is_some()) || (same_text(
        key,
        "color",
    ) && color_value(value).is_some()) || (same_text(key, "no_motion") && truth_value(
        value,
    ).is_some()) || (same_text(key, "flat_cap") && limit_value(value).is_some());
    if !used {
        keys.push(copy_str(key));
        assert(text::texts(keys@) =~= before + seq![key@]);
    }
    assert(text::texts(keys@) =~= before + ignored_of(key@, value@));
}

/// Lists what is ignored of a file's entries: unknown keys, keys with a value that
/// they cannot take, and rows of a table that hold no string.
pub fn ignored_entries(entries: &Vec<(String, ConfigValue)>) -> (keys: Vec<String>)
    ensures
        text::texts(keys@) == ignored(items(entries@)),
{
    let mut keys: Vec<String> = Vec::new();
    let mut i: usize = 0;
    let ghost all = items(entries@);
    assert(all.take(0) =~= Seq::empty());
    assert(text::texts(keys@) =~= Seq::<Seq<char>>::empty());
    while i < entries.len()
        invariant
            i <= entries@.len(),
            all == items(entries@),
            text::texts(keys@) == ignored(all.take(i as int)),
        decreases entries@.len() - i,
    {
        proof {
            assert(all.take(i + 1).drop_last() =~= all.take(i as int));
            assert(all.take(i + 1).last() == (entries@[i as int].0@, entries@[i as int].1@));
        }
        push_ignored(&mut keys, entries[i].0.as_str(), &entries[i].1);
        i = i + 1;
    }
    assert(all.take(i as int) =~= all);
    keys
}

/// Lists what is ignored of a configuration file, for a warning about each; absent where the text is not TOML and the whole file is.
pub fn ignored_keys(text: &str) -> (r: Option<Vec<String>>)
    ensures
        r is Some <==> toml_items(text@) is Some,
        r matches Some(keys) ==> text::texts(keys@) == ignored(toml_items(text@).unwrap()),
{
    match read_toml(text) {
        Some(entries) => Some(ignored_entries(&entries)),
        None => None,
    }
}

/// Reads the text of a configuration file. Text that is not TOML configures
/// nothing.
pub fn parse(text: &str) -> (c: FileConfig)
    ensures
        c == (match toml_items(text@) {
            Some(entries) => config_of(entries),
            None => no_config(),
        }),
{
    match read_toml(text) {
        Some(entries) => from_entries(&entries),
        None => FileConfig::default(),
    }
}

/// The theme that the command line, the environment or the file chose, in that
/// order; absent when none did.
pub fn resolve_theme(cli_or_env: Option<ThemeName>, file: Option<ThemeName>) -> (r: Option<
    ThemeName,
>)
    ensures
        r == (if cli_or_env is Some {
            cli_or_env
        } else {
            file
        }),
{
    match cli_or_env {
        Some(n) => Some(n),
        None => file,
    }
}

/// The color mode that the command line, the environment or the file chose, in
/// that order, else automatic detection.
pub fn resolve_color(cli_or_env: Option<ColorMode>, file: Option<ColorMode>) -> (r: ColorMode)
    ensures
        r == (match cli_or_env {
            Some(m) => m,
            None => match file {
                Some(m) => m,
                None => ColorMode::Auto,
            },
        }),
{
    match cli_or_env {
        Some(m) => m,
        None => match file {
            Some(m) => m,
            None => ColorMode::Auto,
        },
    }
}

/// Whether animation is off: any source that asks for it turns it off.
pub fn resolve_no_motion(cli_flag: bool, env_set: bool, file: Option<bool>) -> (r: bool)
    ensures
        r == (cli_flag || env_set || file == Some(true)),
{
    cli_flag || env_set || match file {
        Some(b) => b,
        None => false,
    }
}

/// An invalid value resets its own key alone: the other keys read as if the
/// entry were not there.
pub proof fn law_keys_are_independent(
    entries: Seq<(Seq<char>, ConfigItem)>,
    key: Seq<char>,
    item: ConfigItem,
)
    ensures
        ({
            let with = seq![(key, item)] + entries;
            &&& key != "theme"@ ==> config_of(with).theme == config_of(entries).theme
            &&& key != "color"@ ==> config_of(with).color == config_of(entries).color
            &&& key != "no_motion"@ ==> config_of(with).no_motion == config_of(entries).no_motion
            &&& key != "flat_cap"@ ==> views_of(with).flat_cap == views_of(entries).flat_cap
            &&& key != "patterns"@ ==> views_of(with).patterns == views_of(entries).patterns
            &&& key != "queries"@ ==> views_of(with).queries == views_of(entries).queries
            &&& key == "theme"@ && !(item is Text) ==> config_of(with).theme is None
            &&& key == "color"@ && !(item is Text) ==> config_of(with).color is None
            &&& key == "no_motion"@ && !(item is Flag) ==> config_of(with).no_motion is None
            &&& key == "flat_cap"@ && !(item is Number) ==> views_of(with).flat_cap is None
            &&& key == "patterns"@ && !(item is Table) ==> views_of(with).patterns.len() == 0
                && views_of(with).ignored_patterns == 1
            &&& key == "queries"@ && !(item is Table) ==> views_of(with).queries.len() == 0
        }),
{
    let with = seq![(key, item)] + entries;
    assert(with.drop_first() =~= entries);
    assert(with[0] == (key, item));
}

/// A row of a table that holds no string is left out on its own: the other rows
/// read as if it were not there, and it is counted.
pub proof fn law_rows_are_independent(
    before: Seq<(Seq<char>, Option<Seq<char>>)>,
    label: Seq<char>,
    after: Seq<(Seq<char>, Option<Seq<char>>)>,
)
    ensures
        string_rows(before.push((label, None)) + after) == string_rows(before + after),
        bad_labels(before.push((label, None)) + after).len() == bad_labels(before + after).len()
            + 1,
    decreases after.len(),
{
    let with = before.push((label, None)) + after;
    let without = before + after;
    if after.len() == 0 {
        assert(with =~= before.push((label, None)));
        assert(with.drop_last() =~= before);
        assert(without =~= before);
    } else {
        law_rows_are_independent(before, label, after.drop_last());
        assert(with.drop_last() =~= before.push((label, None)) + after.drop_last());
        assert(without.drop_last() =~= before + after.drop_last());
        assert(with.last() == after.last() && without.last() == after.last());
    }
}

/// Nothing is ignored in silence: an entry that configures nothing is among what
/// there is to warn about.
pub proof fn law_ignored_keys_are_told(entries: Seq<(Seq<char>, ConfigItem)>, i: int)
    requires
        0 <= i < entries.len(),
    ensures
        is_used(entries[i].0, entries[i].1) || ignored(entries).contains(entries[i].0),
    decreases entries.len(),
{
    let rest = entries.drop_last();
    let last = ignored_of(entries.last().0, entries.last().1);
    if !is_used(entries[i].0, entries[i].1) {
        if i < rest.len() {
            law_ignored_keys_are_told(rest, i);
            let at = choose|at: int|
                0 <= at < ignored(rest).len() && ignored(rest)[at] == entries[i].0;
            assert(ignored(entries)[at] == entries[i].0);
        } else {
            assert(last[0] == entries[i].0);
            assert(ignored(entries)[ignored(rest).len() as int] == entries[i].0);
        }
    }
}

/// Where the configuration file stands: below the configuration directory of the
/// environment, else below the home directory.
pub fn config_path(config_home: Option<&[u8]>, home: Option<&[u8]>) -> (r: Option<Vec<u8>>)
    ensures
        r is Some <==> (config_home matches Some(b) && b@.len() > 0) || home is Some,
        r matches Some(v) ==> Some(v@) == paths::user_file(
            paths::path_of(config_home),
            paths::path_of(home),
            "camembert/camembert.toml"@,
            ".config/camembert/camembert.toml"@,
        ),
{
    proof {
        reveal_strlit("camembert/camembert.toml");
        reveal_strlit(".config/camembert/camembert.toml");
    }
    find_user_file(config_home, home, "camembert/camembert.toml", ".config/camembert/camembert.toml")
}

/// An entry is found by its key, and the first of that key counts.
pub proof fn law_the_first_entry_counts(
    entries: Seq<(Seq<char>, ConfigItem)>,
    key: Seq<char>,
    other: Seq<char>,
    item: ConfigItem,
)
    requires
        key != other,
    ensures
        lookup(seq![(key, item)] + entries, key) == Some(item),
        lookup(seq![(other, item)] + entries, key) == lookup(entries, key),
        lookup(Seq::empty(), key) is None,
{
    assert((seq![(other, item)] + entries).drop_first() =~= entries);
}

/// The three themes and the three color modes are called by their names, and by no other;
/// only a string names one.
pub proof fn law_names_are_known(s: Seq<char>)
    ensures
        theme_named(Some(ConfigItem::Text(s))) == Some(ThemeName::Light) <==> s == "light"@,
        theme_named(Some(ConfigItem::Text(s))) == Some(ThemeName::TokyoNight) <==> s
            == "tokyo-night"@,
        theme_named(Some(ConfigItem::Text(s))) == Some(ThemeName::HighContrast) <==> s
            == "high-contrast"@,
        color_named(Some(ConfigItem::Text(s))) == Some(ColorMode::Auto) <==> s == "auto"@,
        color_named(Some(ConfigItem::Text(s))) == Some(ColorMode::Always) <==> s == "always"@,
        color_named(Some(ConfigItem::Text(s))) == Some(ColorMode::Never) <==> s == "never"@,
        theme_named(None) is None,
        color_named(None) is None,
        flag_value(Some(ConfigItem::Text(s))) is None,
        count_value(Some(ConfigItem::Text(s))) is None,
{
    reveal_strlit("light");
    reveal_strlit("tokyo-night");
    reveal_strlit("high-contrast");
    reveal_strlit("auto");
    reveal_strlit("always");
    reveal_strlit("never");
    assert("light"@.len() != "tokyo-night"@.len());
    assert("light"@.len() != "high-contrast"@.len());
    assert("tokyo-night"@.len() != "high-contrast"@.len());
    assert("auto"@.len() != "always"@.len());
    assert("never"@.len() != "always"@.len());
    assert("never"@.len() != "auto"@.len());
}

/// A flag is what it says, and a number is a count unless it is negative or too large.
pub proof fn law_values_are_taken_as_written(b: bool, n: i64)
    ensures
        flag_value(Some(ConfigItem::Flag(b))) == Some(b),
        n < 0 ==> count_value(Some(ConfigItem::Number(n))) is None,
        0 <= n <= usize::MAX ==> count_value(Some(ConfigItem::Number(n))) == Some(n as usize),
        flag_value(Some(ConfigItem::Number(n))) is None,
{
}

/// Every setting is read from its own key.
pub proof fn law_settings_are_read_from_their_keys(
    rest: Seq<(Seq<char>, ConfigItem)>,
    item: ConfigItem,
)
    ensures
        config_of(seq![("theme"@, item)] + rest).theme == theme_named(Some(item)),
        config_of(seq![("color"@, item)] + rest).color == color_named(Some(item)),
        config_of(seq![("no_motion"@, item)] + rest).no_motion == flag_value(Some(item)),
        views_of(seq![("flat_cap"@, item)] + rest).flat_cap == count_value(Some(item)),
        views_of(seq![("patterns"@, item)] + rest).patterns == string_rows(rows_of(Some(item))),
        views_of(seq![("queries"@, item)] + rest).queries == string_rows(rows_of(Some(item))),
        views_of(seq![("patterns"@, item)] + rest).ignored_patterns == left_out(Some(item)),
{
}

/// The rows of a table that hold strings are read, each with its own label, in file order.
pub proof fn law_rows_are_read_in_order(
    rows: Seq<(Seq<char>, Option<Seq<char>>)>,
    label: Seq<char>,
    t: Seq<char>,
)
    ensures
        string_rows(rows.push((label, Some(t)))) == string_rows(rows).push((label, t)),
        string_rows(rows.push((label, None))) == string_rows(rows),
        bad_labels(rows.push((label, Some(t)))) == bad_labels(rows),
        bad_labels(rows.push((label, None))) == bad_labels(rows).push(label),
        string_rows(rows).len() + bad_labels(rows).len() == rows.len(),
    decreases rows.len(),
{
    assert(rows.push((label, Some(t))).drop_last() =~= rows);
    assert(rows.push((label, None)).drop_last() =~= rows);
    if rows.len() > 0 {
        law_rows_are_read_in_order(rows.drop_last(), label, t);
    }
}

/// A row of a table without a string is told by the table's name and its label, and a table
/// whose rows are all strings is not told at all.
pub proof fn law_bad_rows_are_told(rows: Seq<(Seq<char>, Option<Seq<char>>)>, i: int)
    ensures
        0 <= i < bad_labels(rows).len() ==> ignored_of(
            "patterns"@,
            ConfigItem::Table(rows),
        )[i] == "patterns"@ + "."@ + bad_labels(rows)[i],
        0 <= i < bad_labels(rows).len() ==> ignored_of("queries"@, ConfigItem::Table(rows))[i]
            == "queries"@ + "."@ + bad_labels(rows)[i],
        ignored_of("patterns"@, ConfigItem::Table(rows)).len() == bad_labels(rows).len(),
        ignored_of("queries"@, ConfigItem::Table(rows)).len() == bad_labels(rows).len(),
        left_out(Some(ConfigItem::Table(rows))) == bad_labels(rows).len(),
        left_out(None) == 0,
{
}

/// A file in which every entry configures something is read without a warning.
pub proof fn law_used_entries_are_not_told(entries: Seq<(Seq<char>, ConfigItem)>)
    requires
        forall|i: int|
            0 <= i < entries.len() ==> is_used((#[trigger] entries[i]).0, entries[i].1)
                && !is_table_key(entries[i].0),
    ensures
        ignored(entries).len() == 0,
    decreases entries.len(),
{
    if entries.len() > 0 {
        let rest = entries.drop_last();
        assert forall|i: int| 0 <= i < rest.len() implies is_used((#[trigger] rest[i]).0, rest[i].1)
            && !is_table_key(rest[i].0) by {
            assert(rest[i] == entries[i]);
        }
        law_used_entries_are_not_told(rest);
        assert(entries[entries.len() - 1] == entries.last());
    }
}

/// An entry under a key that means nothing is never used.
pub proof fn law_unknown_keys_are_not_used(key: Seq<char>, item: ConfigItem)
    requires
        key != "theme"@,
        key != "color"@,
        key != "no_motion"@,
        key != "flat_cap"@,
        key != "patterns"@,
        key != "queries"@,
    ensures
        !is_used(key, item),
        ignored_of(key, item) == seq![key],
{
}

} // verus!
