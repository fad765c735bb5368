//! The text format in which the configuration is stored: one
//! `key=value` line per setting, the curve as `temp:speed` pairs joined
//! by commas.
use vstd::prelude::*;

use crate::config::{
    default_config, default_curve, lemma_normalize_idempotent, lemma_preset_name_round_trip,
    lemma_sort_sorted_identity, normalize_curve, normalized, preset_from_text, preset_name,
    sorted_by_temp, AppConfig, ConfigModel, CurvePoint, PresetKind,
};
use crate::paths::{join_path, path_joined, paths_equal, same_path};
use crate::text::{
    chars_equal_str, chars_of, decimal, is_digit, is_ws, lemma_decimal_digits,
    lemma_parse_decimal, lemma_split_after, lemma_split_before, lemma_split_no_sep,
    lemma_split_once_at, lemma_trim_id, parse_bool, parse_bool_chars, parse_unsigned,
    parse_unsigned_chars, push_decimal, split, split_chars, split_once, split_once_chars, trim,
    trim_chars, views,
};

verus! {

// ---------------------------------------------------------------------------
// Reading
// ---------------------------------------------------------------------------

/// One `temp:speed` entry of a stored curve.
pub open spec fn parse_point(entry: Seq<char>) -> Option<CurvePoint> {
    match split_once(entry, ':') {
        None => None,
        Some((t, s)) => match (parse_unsigned(trim(t), 255), parse_unsigned(trim(s), 255)) {
            (Ok(a), Ok(b)) => Some(CurvePoint { temp_c: a as u8, speed_percent: b as u8 }),
            _ => None,
        },
    }
}

/// The points of the comma-separated entries `es`; blank entries are
/// skipped and any malformed entry spoils the whole curve.
pub open spec fn parse_entries(es: Seq<Seq<char>>) -> Option<Seq<CurvePoint>>
    decreases es.len(),
{
    if es.len() == 0 {
        Some(Seq::empty())
    } else {
        match parse_entries(es.drop_last()) {
            None => None,
            Some(c) => if trim(es.last()).len() == 0 {
                Some(c)
            } else {
                match parse_point(es.last()) {
                    None => None,
                    Some(p) => Some(c.push(p)),
                }
            },
        }
    }
}

/// The curve stored in the value of a `custom_curve` line.
pub open spec fn parse_curve(value: Seq<char>) -> Option<Seq<CurvePoint>> {
    parse_entries(split(value, ','))
}

/// The effect of one line on the configuration read so far; `None` when the
/// line makes the whole text unreadable.
pub open spec fn apply_line(cfg: ConfigModel, raw: Seq<char>) -> Option<ConfigModel> {
    match split_once(trim(raw), '=') {
        None => Some(cfg),
        Some((key, value)) => {
            let k = trim(key);
            if k == "active_preset"@ {
                match preset_from_text(trim(value)) {
                    Some(p) => Some(ConfigModel { active_preset: p, ..cfg }),
                    None => Some(cfg),
                }
            } else if k == "automatic_control_enabled"@ {
                match parse_bool(trim(value)) {
                    Some(b) => Some(ConfigModel { automatic_control_enabled: b, ..cfg }),
                    None => None,
                }
            } else if k == "autostart_enabled"@ {
                match parse_bool(trim(value)) {
                    Some(b) => Some(ConfigModel { autostart_enabled: b, ..cfg }),
                    None => None,
                }
            } else if k == "custom_curve"@ {
                match parse_curve(value) {
                    None => None,
                    Some(c) => if c.len() == 0 {
                        Some(cfg)
                    } else {
                        Some(ConfigModel { custom_curve: normalized(c), ..cfg })
                    },
                }
            } else {
                Some(cfg)
            }
        },
    }
}

/// The configuration that the lines `ls` describe, starting from the
/// defaults; later lines override earlier ones.
pub open spec fn parse_lines(ls: Seq<Seq<char>>) -> Option<ConfigModel>
    decreases ls.len(),
{
    if ls.len() == 0 {
        Some(default_config())
    } else {
        match parse_lines(ls.drop_last()) {
            None => None,
            Some(cfg) => apply_line(cfg, ls.last()),
        }
    }
}

/// The configuration that a stored text describes.
pub open spec fn parse_config_text(raw: Seq<char>) -> Option<ConfigModel> {
    parse_lines(split(raw, '\n'))
}

/// Reads one `temp:speed` entry.
pub fn parse_point_chars(entry: &Vec<char>) -> (r: Option<CurvePoint>)
    ensures
        r == parse_point(entry@),
{
    match split_once_chars(entry, ':') {
        None => None,
        Some((t, s)) => {
            let tt = trim_chars(&t);
            let st = trim_chars(&s);
            match (parse_unsigned_chars(&tt, 255), parse_unsigned_chars(&st, 255)) {
                (Ok(a), Ok(b)) => Some(CurvePoint { temp_c: a as u8, speed_percent: b as u8 }),
                _ => None,
            }
        },
    }
}

/// Reads the value of a `custom_curve` line.
pub fn parse_curve_chars(value: &Vec<char>) -> (r: Option<Vec<CurvePoint>>)
    ensures
        match r {
            Some(c) => parse_curve(value@) == Some(c@),
            None => parse_curve(value@) is None,
        },
{
    let entries = split_chars(value, ',');
    let mut curve: Vec<CurvePoint> = Vec::new();
    let mut i: usize = 0;
    while i < entries.len()
        invariant
            i <= entries@.len(),
            views(entries@) == split(value@, ','),
            parse_entries(views(entries@).take(i as int)) == Some(curve@),
        decreases entries@.len() - i,
    {
        let e = &entries[i];
        proof {
            assert(views(entries@).take(i + 1).drop_last() =~= views(entries@).take(i as int));
            assert(views(entries@).take(i + 1).last() == e@);
        }
        let t = trim_chars(e);
        if t.len() != 0 {
            match parse_point_chars(e) {
                None => {
                    proof {
                        lemma_entries_none(views(entries@), (i + 1) as int);
                    }
                    return None;
                },
                Some(p) => {
                    curve.push(p);
                },
            }
        }
        i = i + 1;
    }
    proof {
        assert(views(entries@).take(i as int) =~= views(entries@));
    }
    Some(curve)
}

proof fn lemma_entries_none(es: Seq<Seq<char>>, k: int)
    requires
        0 <= k <= es.len(),
        parse_entries(es.take(k)) is None,
    ensures
        parse_entries(es) is None,
    decreases es.len() - k,
{
    if k < es.len() {
        assert(es.take(k + 1).drop_last() =~= es.take(k));
        lemma_entries_none(es, k + 1);
    } else {
        assert(es.take(k) =~= es);
    }
}

proof fn lemma_lines_none(ls: Seq<Seq<char>>, k: int)
    requires
        0 <= k <= ls.len(),
        parse_lines(ls.take(k)) is None,
    ensures
        parse_lines(ls) is None,
    decreases ls.len() - k,
{
    if k < ls.len() {
        assert(ls.take(k + 1).drop_last() =~= ls.take(k));
        lemma_lines_none(ls, k + 1);
    } else {
        assert(ls.take(k) =~= ls);
    }
}

/// Applies one stored line to `cfg`; `false` when the line makes the whole
/// text unreadable.
pub fn apply_config_line(cfg: &mut AppConfig, raw: &Vec<char>) -> (ok: bool)
    ensures
        ok ==> apply_line(old(cfg)@, raw@) == Some(final(cfg)@),
        !ok ==> apply_line(old(cfg)@, raw@) is None,
{
    let line = trim_chars(raw);
    if line.len() == 0 {
        return true;
    }
    let (key, value) = match split_once_chars(&line, '=') {
        None => {
            return true;
        },
        Some(kv) => kv,
    };
    let k = trim_chars(&key);
    if chars_equal_str(&k, "active_preset") {
        let v = trim_chars(&value);
        if let Some(preset) = PresetKind::from_chars(&v) {
            cfg.active_preset = preset;
        }
        true
    } else if chars_equal_str(&k, "automatic_control_enabled") {
        let v = trim_chars(&value);
        match parse_bool_chars(&v) {
            Some(b) => {
                cfg.automatic_control_enabled = b;
                true
            },
            None => false,
        }
    } else if chars_equal_str(&k, "autostart_enabled") {
        let v = trim_chars(&value);
        match parse_bool_chars(&v) {
            Some(b) => {
                cfg.autostart_enabled = b;
                true
            },
            None => false,
        }
    } else if chars_equal_str(&k, "custom_curve") {
        match parse_curve_chars(&value) {
            None => false,
            Some(curve) => {
                let mut curve = curve;
                if curve.len() != 0 {
                    normalize_curve(&mut curve);
                    cfg.custom_curve = curve;
                }
                true
            },
        }
    } else {
        true
    }
}

/// Reads a stored configuration; `None` when a boolean setting or the
/// curve is malformed. Settings that are not given keep their defaults.
pub fn parse_config(raw: &str) -> (r: Option<AppConfig>)
    ensures
        match r {
            Some(c) => parse_config_text(raw@) == Some(c@),
            None => parse_config_text(raw@) is None,
        },
{
    let chars = chars_of(raw);
    let lines = split_chars(&chars, '\n');
    let mut config = AppConfig::default();
    let mut i: usize = 0;
    while i < lines.len()
        invariant
            i <= lines@.len(),
            views(lines@) == split(raw@, '\n'),
            parse_lines(views(lines@).take(i as int)) == Some(config@),
        decreases lines@.len() - i,
    {
        proof {
            assert(views(lines@).take(i + 1).drop_last() =~= views(lines@).take(i as int));
            assert(views(lines@).take(i + 1).last() == lines@[i as int]@);
        }
        if !apply_config_line(&mut config, &lines[i]) {
            proof {
                lemma_lines_none(views(lines@), (i + 1) as int);
            }
            return None;
        }
        i = i + 1;
    }
    proof {
        assert(views(lines@).take(i as int) =~= views(lines@));
    }
    Some(config)
}

// ---------------------------------------------------------------------------
// Writing
// ---------------------------------------------------------------------------

/// One stored line: `key=value` and a newline.
pub open spec fn entry_line(key: Seq<char>, value: Seq<char>) -> Seq<char> {
    key + seq!['='] + value + seq!['\n']
}

/// How a boolean is written (what `{}` prints).
pub open spec fn bool_text(b: bool) -> Seq<char> {
    if b {
        "true"@
    } else {
        "false"@
    }
}

/// One point as `temp:speed`.
pub open spec fn point_text(p: CurvePoint) -> Seq<char> {
    decimal(p.temp_c as nat) + seq![':'] + decimal(p.speed_percent as nat)
}

/// The points of `s` written one after another, joined by commas.
pub open spec fn curve_text(s: Seq<CurvePoint>) -> Seq<char>
    decreases s.len(),
{
    if s.len() == 0 {
        Seq::empty()
    } else if s.len() == 1 {
        point_text(s[0])
    } else {
        curve_text(s.drop_last()) + seq![','] + point_text(s.last())
    }
}

/// The stored text of a configuration.
pub open spec fn disk_format(c: ConfigModel) -> Seq<char> {
    entry_line("active_preset"@, preset_name(c.active_preset)) + entry_line(
        "automatic_control_enabled"@,
        bool_text(c.automatic_control_enabled),
    ) + entry_line("autostart_enabled"@, bool_text(c.autostart_enabled)) + entry_line(
        "custom_curve"@,
        curve_text(c.custom_curve),
    )
}

fn bool_str(b: bool) -> (r: &'static str)
    ensures
        r@ == bool_text(b),
{
    if b {
        "true"
    } else {
        "false"
    }
}

fn push_entry_line(out: &mut String, key: &str, value: &str)
    ensures
        final(out)@ == old(out)@ + entry_line(key@, value@),
{
    out.append(key);
    out.append("=");
    out.append(value);
    out.append("\n");
    proof {
        reveal_strlit("=");
        reveal_strlit("\n");
        assert(final(out)@ =~= old(out)@ + entry_line(key@, value@));
    }
}

impl AppConfig {
    /// The text under which this configuration is stored.
    pub fn to_disk_format(&self) -> (r: String)
        ensures
            r@ == disk_format(self@),
    {
        let mut out = String::new();
        push_entry_line(&mut out, "active_preset", self.active_preset.as_str());
        push_entry_line(&mut out, "automatic_control_enabled", bool_str(self.automatic_control_enabled));
        push_entry_line(&mut out, "autostart_enabled", bool_str(self.autostart_enabled));
        let ghost head = out@;
        out.append("custom_curve=");
        let ghost start = out@;
        let curve = &self.custom_curve;
        let mut i: usize = 0;
        while i < curve.len()
            invariant
                i <= curve@.len(),
                out@ == start + curve_text(curve@.take(i as int)),
            decreases curve@.len() - i,
        {
            let ghost before = out@;
            if i > 0 {
                out.append(",");
            }
            push_decimal(&mut out, curve[i].temp_c as u32);
            out.append(":");
            push_decimal(&mut out, curve[i].speed_percent as u32);
            proof {
                reveal_strlit(",");
                reveal_strlit(":");
                let t = curve@.take(i + 1);
                assert(t.drop_last() =~= curve@.take(i as int));
                assert(t.last() == curve@[i as int]);
                if i == 0 {
                    assert(curve_text(t) == point_text(t[0]));
                    assert(out@ =~= start + curve_text(t));
                } else {
                    assert(out@ =~= start + curve_text(t));
                }
            }
            i = i + 1;
        }
        out.append("\n");
        proof {
            reveal_strlit("custom_curve=");
            reveal_strlit("custom_curve");
            reveal_strlit("\n");
            assert(curve@.take(i as int) =~= curve@);
            assert(out@ =~= disk_format(self@));
        }
        out
    }
}

// ---------------------------------------------------------------------------
// Where the file lives
// ---------------------------------------------------------------------------

/// The path that the configuration is written to: the one given by the
/// environment, or the system-wide default.
pub open spec fn primary_path(given: Option<Seq<char>>) -> Seq<char> {
    match given {
        Some(p) => p,
        None => "/etc/t2-fancontrol/config.txt"@,
    }
}

/// `given` is the value of `T2_FANCONTROL_CONFIG`, where it is set.
pub fn primary_config_path(given: Option<String>) -> (r: String)
    ensures
        r@ == primary_path(text_opt(given)),
{
    match given {
        Some(p) => p,
        None => "/etc/t2-fancontrol/config.txt".to_owned(),
    }
}

/// The directory under which an older version kept its configuration:
/// `XDG_CONFIG_HOME`, else `.config` in `HOME`.
pub open spec fn legacy_base(xdg_config_home: Option<Seq<char>>, home: Option<Seq<char>>) -> Option<
    Seq<char>,
> {
    match xdg_config_home {
        Some(x) => Some(x),
        None => match home {
            Some(h) => Some(path_joined(h, ".config"@)),
            None => None,
        },
    }
}

/// The paths that the configuration is read from, in order: the primary
/// path, then the legacy path unless it is the same path.
pub open spec fn candidate_paths(
    primary: Seq<char>,
    xdg_config_home: Option<Seq<char>>,
    home: Option<Seq<char>>,
) -> Seq<Seq<char>> {
    match legacy_base(xdg_config_home, home) {
        None => seq![primary],
        Some(base) => {
            let legacy = path_joined(path_joined(base, "t2-fancontrol"@), "config.txt"@);
            if same_path(primary, legacy) {
                seq![primary]
            } else {
                seq![primary, legacy]
            }
        },
    }
}

/// The text of an optional string.
pub open spec fn text_opt(o: Option<String>) -> Option<Seq<char>> {
    match o {
        Some(s) => Some(s@),
        None => None,
    }
}

/// The paths to read the configuration from; `xdg_config_home` and `home`
/// are the values of those environment variables, where set.
pub fn candidate_config_paths(
    primary: String,
    xdg_config_home: Option<String>,
    home: Option<String>,
) -> (r: Vec<String>)
    ensures
        views(r@) == candidate_paths(primary@, text_opt(xdg_config_home), text_opt(home)),
{
    let ghost p = primary@;
    let mut paths: Vec<String> = Vec::new();
    let base = match xdg_config_home {
        Some(x) => Some(x),
        None => match home {
            Some(h) => Some(join_path(h.as_str(), ".config")),
            None => None,
        },
    };
    match base {
        None => {
            paths.push(primary);
        },
        Some(b) => {
            let dir = join_path(b.as_str(), "t2-fancontrol");
            let legacy = join_path(dir.as_str(), "config.txt");
            let same = paths_equal(primary.as_str(), legacy.as_str());
            paths.push(primary);
            if !same {
                paths.push(legacy);
            }
        },
    }
    proof {
        assert(views(paths@) =~= candidate_paths(p, text_opt(xdg_config_home), text_opt(home)));
    }
    paths
}

/// The texts of optional strings.
pub open spec fn texts_opt(s: Seq<Option<String>>) -> Seq<Option<Seq<char>>> {
    Seq::new(s.len(), |i: int| text_opt(s[i]))
}

/// The configuration of the first candidate that could be read and is well
/// formed.
pub open spec fn first_readable(texts: Seq<Option<Seq<char>>>) -> Option<ConfigModel>
    decreases texts.len(),
{
    if texts.len() == 0 {
        None
    } else {
        match texts[0] {
            Some(t) => match parse_config_text(t) {
                Some(c) => Some(c),
                None => first_readable(texts.drop_first()),
            },
            None => first_readable(texts.drop_first()),
        }
    }
}

/// The configuration that loading gives: the first readable one, else the
/// defaults.
pub open spec fn loaded_config(texts: Seq<Option<Seq<char>>>) -> ConfigModel {
    match first_readable(texts) {
        Some(c) => c,
        None => default_config(),
    }
}

/// Chooses the configuration to use from what reading each candidate path,
/// in order, gave (`None` where the file could not be read).
pub fn config_from_candidates(texts: &Vec<Option<String>>) -> (r: AppConfig)
    ensures
        r@ == loaded_config(texts_opt(texts@)),
{
    let ghost ts = texts_opt(texts@);
    let n: usize = texts.len();
    let mut i: usize = 0;
    proof {
        assert(ts.skip(0) =~= ts);
    }
    while i < n
        invariant
            n == texts@.len(),
            ts == texts_opt(texts@),
            i <= n,
            first_readable(ts) == first_readable(ts.skip(i as int)),
        decreases n - i,
    {
        proof {
            assert(ts.skip(i as int).drop_first() =~= ts.skip(i + 1));
            assert(ts.skip(i as int)[0] == text_opt(texts@[i as int]));
        }
        if let Some(raw) = &texts[i] {
            if let Some(config) = parse_config(raw.as_str()) {
                return config;
            }
        }
        i = i + 1;
    }
    proof {
        assert(ts.skip(n as int) =~= Seq::<Option<Seq<char>>>::empty());
    }
    AppConfig::default()
}

/// Loading gives the configuration of the lowest-numbered candidate that
/// was read and parses; when none does, the defaults.
pub proof fn lemma_loaded_config(texts: Seq<Option<Seq<char>>>, j: int)
    ensures
        0 <= j < texts.len() && texts[j] is Some && parse_config_text(texts[j]->0) is Some && (
        forall|i: int|
            0 <= i < j ==> (texts[i] is None || parse_config_text(texts[i]->0) is None))
            ==> loaded_config(texts) == parse_config_text(texts[j]->0)->0,
        (forall|i: int|
            0 <= i < texts.len() ==> (texts[i] is None || parse_config_text(texts[i]->0) is None))
            ==> loaded_config(texts) == default_config(),
    decreases texts.len(),
{
    lemma_first_readable(texts, j);
}

proof fn lemma_first_readable(texts: Seq<Option<Seq<char>>>, j: int)
    ensures
        0 <= j < texts.len() && texts[j] is Some && parse_config_text(texts[j]->0) is Some && (
        forall|i: int|
            0 <= i < j ==> (texts[i] is None || parse_config_text(texts[i]->0) is None))
            ==> first_readable(texts) == parse_config_text(texts[j]->0),
        (forall|i: int|
            0 <= i < texts.len() ==> (texts[i] is None || parse_config_text(texts[i]->0) is None))
            ==> first_readable(texts) is None,
    decreases texts.len(),
{
    if texts.len() > 0 {
        let d = texts.drop_first();
        lemma_first_readable(d, j - 1);
        if forall|i: int|
            0 <= i < texts.len() ==> (texts[i] is None || parse_config_text(texts[i]->0) is None) {
            assert(texts[0] is None || parse_config_text(texts[0]->0) is None);
            assert forall|i: int| 0 <= i < d.len() implies (d[i] is None || parse_config_text(
                d[i]->0,
            ) is None) by {
                assert(d[i] == texts[i + 1]);
            }
        }
        if 0 <= j < texts.len() && texts[j] is Some && parse_config_text(texts[j]->0) is Some && (
        forall|i: int|
            0 <= i < j ==> (texts[i] is None || parse_config_text(texts[i]->0) is None)) {
            if j > 0 {
                assert(texts[0] is None || parse_config_text(texts[0]->0) is None);
                assert(d[j - 1] == texts[j]);
                assert forall|i: int| 0 <= i < j - 1 implies (d[i] is None || parse_config_text(
                    d[i]->0,
                ) is None) by {
                    assert(d[i] == texts[i + 1]);
                }
            }
        }
    }
}

/// Under a home directory `h` (not ending in `/`) and without
/// `XDG_CONFIG_HOME`, the legacy configuration path is
/// `h/.config/t2-fancontrol/config.txt`.
pub proof fn lemma_legacy_path_under_home(h: Seq<char>)
    requires
        h.len() > 0,
        h.last() != '/',
    ensures
        legacy_base(None, Some(h)) matches Some(b) && path_joined(
            path_joined(b, "t2-fancontrol"@),
            "config.txt"@,
        ) == h + "/.config/t2-fancontrol/config.txt"@,
{
    reveal_strlit(".config");
    reveal_strlit("t2-fancontrol");
    reveal_strlit("config.txt");
    reveal_strlit("/.config/t2-fancontrol/config.txt");
    let a = path_joined(h, ".config"@);
    assert(a =~= h + seq!['/'] + ".config"@);
    let b = path_joined(a, "t2-fancontrol"@);
    assert(a.last() == 'g');
    assert(b =~= a + seq!['/'] + "t2-fancontrol"@);
    let c = path_joined(b, "config.txt"@);
    assert(b.last() == 'l');
    assert(c =~= b + seq!['/'] + "config.txt"@);
    assert(c =~= h + "/.config/t2-fancontrol/config.txt"@);
}

// ---------------------------------------------------------------------------
// Reading back what was written
// ---------------------------------------------------------------------------

proof fn lemma_decimal_plain(n: nat)
    ensures
        decimal(n).len() >= 1,
        !decimal(n).contains(':'),
        !decimal(n).contains(','),
        !decimal(n).contains('='),
        !decimal(n).contains('\n'),
        !is_ws(decimal(n)[0]),
        !is_ws(decimal(n).last()),
{
    lemma_decimal_digits(n);
    let d = decimal(n);
    assert(is_digit(d[0]));
    assert(is_digit(d[d.len() - 1]));
    assert forall|c: char| !is_digit(c) implies !d.contains(c) by {
        if d.contains(c) {
            let i = choose|i: int| 0 <= i < d.len() && d[i] == c;
            assert(is_digit(d[i]));
        }
    }
}

proof fn lemma_point_text(p: CurvePoint)
    ensures
        point_text(p).len() >= 1,
        !point_text(p).contains(','),
        !point_text(p).contains('\n'),
        !point_text(p).contains('='),
        !is_ws(point_text(p)[0]),
        !is_ws(point_text(p).last()),
        trim(point_text(p)) == point_text(p),
        parse_point(point_text(p)) == Some(p),
{
    let a = decimal(p.temp_c as nat);
    let b = decimal(p.speed_percent as nat);
    let t = point_text(p);
    lemma_decimal_plain(p.temp_c as nat);
    lemma_decimal_plain(p.speed_percent as nat);
    assert(t[0] == a[0]);
    assert(t.last() == b.last());
    assert forall|c: char| c != ':' && !a.contains(c) && !b.contains(c) implies !t.contains(c) by {
        if t.contains(c) {
            let i = choose|i: int| 0 <= i < t.len() && t[i] == c;
            if i < a.len() {
                assert(a[i] == c);
            } else if i > a.len() {
                assert(b[i - a.len() - 1] == c);
            }
        }
    }
    lemma_trim_id(t);
    lemma_split_once_at(a, b, ':');
    lemma_trim_id(a);
    lemma_trim_id(b);
    lemma_parse_decimal(p.temp_c as nat, 255);
    lemma_parse_decimal(p.speed_percent as nat, 255);
}

proof fn lemma_curve_text_shape(s: Seq<CurvePoint>)
    requires
        s.len() > 0,
    ensures
        !curve_text(s).contains('\n'),
        !curve_text(s).contains('='),
        curve_text(s).len() >= 1,
        !is_ws(curve_text(s)[0]),
        !is_ws(curve_text(s).last()),
        split(curve_text(s), ',').len() == s.len(),
        forall|i: int|
            0 <= i < s.len() ==> #[trigger] split(curve_text(s), ',')[i] == point_text(s[i]),
    decreases s.len(),
{
    let t = curve_text(s);
    lemma_point_text(s.last());
    if s.len() == 1 {
        lemma_point_text(s[0]);
        lemma_split_no_sep(point_text(s[0]), ',');
    } else {
        let d = s.drop_last();
        let x = curve_text(d);
        let y = point_text(s.last());
        lemma_curve_text_shape(d);
        lemma_split_before(x, y, ',');
        assert(t == x + seq![','] + y);
        assert(t[0] == x[0]);
        assert(t.last() == y.last());
        assert forall|c: char| c == '\n' || c == '=' implies !t.contains(c) by {
            if t.contains(c) {
                let i = choose|i: int| 0 <= i < t.len() && t[i] == c;
                if i < x.len() {
                    assert(x[i] == c);
                } else if i > x.len() {
                    assert(y[i - x.len() - 1] == c);
                }
            }
        }
        assert forall|i: int| 0 <= i < s.len() implies #[trigger] split(t, ',')[i] == point_text(
            s[i],
        ) by {
            if i < d.len() {
                assert(s[i] == d[i]);
            }
        }
    }
}

proof fn lemma_parse_entries_points(es: Seq<Seq<char>>, s: Seq<CurvePoint>)
    requires
        es.len() == s.len(),
        forall|i: int| 0 <= i < s.len() ==> #[trigger] es[i] == point_text(s[i]),
    ensures
        parse_entries(es) == Some(s),
    decreases s.len(),
{
    if s.len() > 0 {
        let d = s.drop_last();
        assert forall|i: int| 0 <= i < d.len() implies #[trigger] es.drop_last()[i] == point_text(
            d[i],
        ) by {
            assert(es[i] == point_text(s[i]));
        }
        lemma_parse_entries_points(es.drop_last(), d);
        lemma_point_text(s.last());
        assert(es.last() == point_text(s.last()));
        assert(d.push(s.last()) =~= s);
    } else {
        assert(s =~= Seq::<CurvePoint>::empty());
    }
}

/// A written curve is read back as it was.
pub proof fn lemma_parse_curve_text(s: Seq<CurvePoint>)
    ensures
        parse_curve(curve_text(s)) == Some(s),
{
    if s.len() == 0 {
        let e = Seq::<char>::empty();
        assert(curve_text(s) =~= e);
        lemma_split_no_sep(e, ',');
        let es = seq![e];
        assert(split(curve_text(s), ',') == es);
        assert(es.drop_last() =~= Seq::<Seq<char>>::empty());
        assert(parse_entries(es.drop_last()) == Some(Seq::<CurvePoint>::empty()));
        assert(es.last() == e);
        lemma_trim_id(e);
        assert(trim(es.last()).len() == 0);
        assert(parse_entries(es) == Some(Seq::<CurvePoint>::empty()));
        assert(s =~= Seq::<CurvePoint>::empty());
    } else {
        lemma_curve_text_shape(s);
        lemma_parse_entries_points(split(curve_text(s), ','), s);
    }
}

proof fn lemma_entry_line(key: Seq<char>, value: Seq<char>)
    requires
        key.len() > 0,
        !is_ws(key[0]),
        !is_ws(key.last()),
        !key.contains('='),
        !key.contains('\n'),
        !value.contains('\n'),
        value.len() > 0 ==> !is_ws(value.last()),
    ensures
        ({
            let line = key + seq!['='] + value;
            &&& !line.contains('\n')
            &&& trim(line) == line
            &&& split_once(trim(line), '=') == Some((key, value))
            &&& trim(key) == key
            &&& entry_line(key, value) == line + seq!['\n']
        }),
{
    let line = key + seq!['='] + value;
    assert(line[0] == key[0]);
    if value.len() > 0 {
        assert(line.last() == value.last());
    } else {
        assert(line.last() == '=');
    }
    lemma_trim_id(line);
    lemma_trim_id(key);
    lemma_split_once_at(key, value, '=');
    assert(!line.contains('\n')) by {
        if line.contains('\n') {
            let i = choose|i: int| 0 <= i < line.len() && line[i] == '\n';
            if i < key.len() {
                assert(key[i] == '\n');
            } else if i > key.len() {
                assert(value[i - key.len() - 1] == '\n');
            }
        }
    }
}

proof fn lemma_literal_keys()
    ensures
        "active_preset"@.len() == 13,
        "automatic_control_enabled"@.len() == 25,
        "autostart_enabled"@.len() == 17,
        "custom_curve"@.len() == 12,
        !"active_preset"@.contains('='),
        !"automatic_control_enabled"@.contains('='),
        !"autostart_enabled"@.contains('='),
        !"custom_curve"@.contains('='),
        !"active_preset"@.contains('\n'),
        !"automatic_control_enabled"@.contains('\n'),
        !"autostart_enabled"@.contains('\n'),
        !"custom_curve"@.contains('\n'),
        !is_ws("active_preset"@[0]),
        !is_ws("automatic_control_enabled"@[0]),
        !is_ws("autostart_enabled"@[0]),
        !is_ws("custom_curve"@[0]),
        !is_ws("active_preset"@.last()),
        !is_ws("automatic_control_enabled"@.last()),
        !is_ws("autostart_enabled"@.last()),
        !is_ws("custom_curve"@.last()),
{
    reveal_strlit("active_preset");
    reveal_strlit("automatic_control_enabled");
    reveal_strlit("autostart_enabled");
    reveal_strlit("custom_curve");
}

proof fn lemma_value_texts(c: ConfigModel)
    ensures
        preset_name(c.active_preset).len() > 0,
        !preset_name(c.active_preset).contains('\n'),
        !is_ws(preset_name(c.active_preset).last()),
        !is_ws(preset_name(c.active_preset)[0]),
        trim(preset_name(c.active_preset)) == preset_name(c.active_preset),
        !bool_text(c.automatic_control_enabled).contains('\n'),
        !is_ws(bool_text(c.automatic_control_enabled).last()),
        trim(bool_text(c.automatic_control_enabled)) == bool_text(c.automatic_control_enabled),
        parse_bool(trim(bool_text(c.automatic_control_enabled))) == Some(c.automatic_control_enabled),
        !bool_text(c.autostart_enabled).contains('\n'),
        !is_ws(bool_text(c.autostart_enabled).last()),
        trim(bool_text(c.autostart_enabled)) == bool_text(c.autostart_enabled),
        parse_bool(trim(bool_text(c.autostart_enabled))) == Some(c.autostart_enabled),
{
    reveal_strlit("Quiet");
    reveal_strlit("Balanced");
    reveal_strlit("Performance");
    reveal_strlit("Custom");
    reveal_strlit("true");
    reveal_strlit("false");
    lemma_trim_id(preset_name(c.active_preset));
    lemma_trim_id(bool_text(c.automatic_control_enabled));
    lemma_trim_id(bool_text(c.autostart_enabled));
    assert("true"@ != "false"@) by {
        assert("true"@.len() != "false"@.len());
    }
}

/// A stored line without its newline.
pub open spec fn line_text(key: Seq<char>, value: Seq<char>) -> Seq<char> {
    key + seq!['='] + value
}

/// The curve that reading back a stored curve leaves in place.
pub open spec fn stored_curve(s: Seq<CurvePoint>) -> Seq<CurvePoint> {
    if s.len() == 0 {
        default_curve(PresetKind::Custom)
    } else {
        normalized(s)
    }
}

proof fn lemma_disk_lines(c: ConfigModel)
    ensures
        split(disk_format(c), '\n') == seq![
            line_text("active_preset"@, preset_name(c.active_preset)),
            line_text("automatic_control_enabled"@, bool_text(c.automatic_control_enabled)),
            line_text("autostart_enabled"@, bool_text(c.autostart_enabled)),
            line_text("custom_curve"@, curve_text(c.custom_curve)),
            Seq::<char>::empty(),
        ],
{
    let k1 = "active_preset"@;
    let k2 = "automatic_control_enabled"@;
    let k3 = "autostart_enabled"@;
    let k4 = "custom_curve"@;
    let v1 = preset_name(c.active_preset);
    let v2 = bool_text(c.automatic_control_enabled);
    let v3 = bool_text(c.autostart_enabled);
    let v4 = curve_text(c.custom_curve);
    lemma_literal_keys();
    lemma_value_texts(c);
    if c.custom_curve.len() > 0 {
        lemma_curve_text_shape(c.custom_curve);
    } else {
        assert(v4 =~= Seq::<char>::empty());
    }
    lemma_entry_line(k1, v1);
    lemma_entry_line(k2, v2);
    lemma_entry_line(k3, v3);
    lemma_entry_line(k4, v4);
    let l1 = line_text(k1, v1);
    let l2 = line_text(k2, v2);
    let l3 = line_text(k3, v3);
    let l4 = line_text(k4, v4);
    let e = Seq::<char>::empty();
    let r4 = l4 + seq!['\n'] + e;
    let r3 = l3 + seq!['\n'] + r4;
    let r2 = l2 + seq!['\n'] + r3;
    let r1 = l1 + seq!['\n'] + r2;
    assert(disk_format(c) =~= r1);
    lemma_split_no_sep(e, '\n');
    lemma_split_after(l4, e, '\n');
    lemma_split_after(l3, r4, '\n');
    lemma_split_after(l2, r3, '\n');
    lemma_split_after(l1, r2, '\n');
    assert(split(r1, '\n') =~= seq![l1, l2, l3, l4, e]);
}

proof fn lemma_read_preset(cfg: ConfigModel, p: PresetKind)
    ensures
        apply_line(cfg, line_text("active_preset"@, preset_name(p))) == Some(
            ConfigModel { active_preset: p, ..cfg },
        ),
{
    lemma_literal_keys();
    lemma_value_texts(ConfigModel { active_preset: p, ..cfg });
    lemma_entry_line("active_preset"@, preset_name(p));
    lemma_preset_name_round_trip(p);
}

proof fn lemma_read_automatic(cfg: ConfigModel, b: bool)
    ensures
        apply_line(cfg, line_text("automatic_control_enabled"@, bool_text(b))) == Some(
            ConfigModel { automatic_control_enabled: b, ..cfg },
        ),
{
    lemma_literal_keys();
    lemma_value_texts(ConfigModel { automatic_control_enabled: b, ..cfg });
    lemma_entry_line("automatic_control_enabled"@, bool_text(b));
}

proof fn lemma_read_autostart(cfg: ConfigModel, b: bool)
    ensures
        apply_line(cfg, line_text("autostart_enabled"@, bool_text(b))) == Some(
            ConfigModel { autostart_enabled: b, ..cfg },
        ),
{
    lemma_literal_keys();
    lemma_value_texts(ConfigModel { autostart_enabled: b, ..cfg });
    lemma_entry_line("autostart_enabled"@, bool_text(b));
}

proof fn lemma_read_curve(cfg: ConfigModel, s: Seq<CurvePoint>)
    ensures
        apply_line(cfg, line_text("custom_curve"@, curve_text(s))) == Some(
            ConfigModel {
                custom_curve: if s.len() == 0 {
                    cfg.custom_curve
                } else {
                    normalized(s)
                },
                ..cfg
            },
        ),
{
    lemma_literal_keys();
    if s.len() > 0 {
        lemma_curve_text_shape(s);
    } else {
        assert(curve_text(s) =~= Seq::<char>::empty());
    }
    lemma_entry_line("custom_curve"@, curve_text(s));
    lemma_parse_curve_text(s);
    if s.len() == 0 {
        assert(cfg == ConfigModel { custom_curve: cfg.custom_curve, ..cfg });
    }
}

/// Reading back the stored text of a configuration gives the
/// configuration, with its curve normalized; an empty curve is not stored
/// and leaves the default custom curve in place.
pub proof fn lemma_disk_format_round_trip(c: ConfigModel)
    ensures
        parse_config_text(disk_format(c)) == Some(
            ConfigModel { custom_curve: stored_curve(c.custom_curve), ..c },
        ),
{
    let ls = split(disk_format(c), '\n');
    lemma_disk_lines(c);
    let d = default_config();
    let c1 = ConfigModel { active_preset: c.active_preset, ..d };
    let c2 = ConfigModel { automatic_control_enabled: c.automatic_control_enabled, ..c1 };
    let c3 = ConfigModel { autostart_enabled: c.autostart_enabled, ..c2 };
    let c4 = ConfigModel { custom_curve: stored_curve(c.custom_curve), ..c3 };
    lemma_read_preset(d, c.active_preset);
    lemma_read_automatic(c1, c.automatic_control_enabled);
    lemma_read_autostart(c2, c.autostart_enabled);
    lemma_read_curve(c3, c.custom_curve);
    let e = Seq::<char>::empty();
    assert(trim(e) =~= e) by {
        lemma_trim_id(e);
    }
    assert(apply_line(c4, e) == Some(c4));
    let ls0 = ls.drop_last().drop_last().drop_last().drop_last().drop_last();
    assert(ls0 =~= Seq::<Seq<char>>::empty());
    assert(parse_lines(ls0) == Some(d));
    assert(parse_lines(ls.drop_last().drop_last().drop_last().drop_last()) == Some(c1));
    assert(parse_lines(ls.drop_last().drop_last().drop_last()) == Some(c2));
    assert(parse_lines(ls.drop_last().drop_last()) == Some(c3));
    assert(parse_lines(ls.drop_last()) == Some(c4));
    assert(c4 == ConfigModel { custom_curve: stored_curve(c.custom_curve), ..c });
}

proof fn lemma_apply_line_keeps_normal(cfg: ConfigModel, raw: Seq<char>)
    requires
        normalized(cfg.custom_curve) == cfg.custom_curve,
    ensures
        apply_line(cfg, raw) matches Some(n) ==> normalized(n.custom_curve) == n.custom_curve,
{
    if let Some((key, value)) = split_once(trim(raw), '=') {
        if let Some(c) = parse_curve(value) {
            lemma_normalize_idempotent(c);
        }
    }
}

proof fn lemma_parse_lines_normal(ls: Seq<Seq<char>>)
    ensures
        parse_lines(ls) matches Some(n) ==> normalized(n.custom_curve) == n.custom_curve,
    decreases ls.len(),
{
    if ls.len() == 0 {
        lemma_default_custom_curve_normal();
    } else {
        lemma_parse_lines_normal(ls.drop_last());
        if let Some(cfg) = parse_lines(ls.drop_last()) {
            lemma_apply_line_keeps_normal(cfg, ls.last());
        }
    }
}

proof fn lemma_default_custom_curve_normal()
    ensures
        normalized(default_curve(PresetKind::Custom)) == default_curve(PresetKind::Custom),
{
    let s = default_curve(PresetKind::Custom);
    assert(sorted_by_temp(s));
    lemma_sort_sorted_identity(s);
    assert(normalized(s) =~= s);
}

/// The custom curve of every configuration that is read is normalized:
/// normalizing it again changes nothing.
pub proof fn lemma_parsed_curve_normalized(raw: Seq<char>)
    ensures
        parse_config_text(raw) matches Some(n) ==> normalized(n.custom_curve) == n.custom_curve,
{
    lemma_parse_lines_normal(split(raw, '\n'));
}

} // verus!
