//! Presets, fan curves and the application configuration.
use vstd::prelude::*;

use crate::text::chars_equal_str;

verus! {

broadcast use vstd::seq_lib::group_to_multiset_ensures;

/// One point of a fan curve: at `temp_c` degrees the fan runs at
/// `speed_percent` percent of its range.
#[derive(Clone, Copy, Debug, PartialEq, Eq, Structural)]
pub struct CurvePoint {
    pub temp_c: u8,
    pub speed_percent: u8,
}

/// The fan presets; `Custom` follows the user's own curve.
#[derive(Clone, Copy, Debug, PartialEq, Eq, Structural)]
pub enum PresetKind {
    Quiet,
    Balanced,
    Performance,
    Custom,
}

impl Default for PresetKind {
    fn default() -> (r: Self)
        ensures
            r == PresetKind::Balanced,
    {
        PresetKind::Balanced
    }
}

/// The name under which a preset is stored.
pub open spec fn preset_name(p: PresetKind) -> Seq<char> {
    match p {
        PresetKind::Quiet => "Quiet"@,
        PresetKind::Balanced => "Balanced"@,
        PresetKind::Performance => "Performance"@,
        PresetKind::Custom => "Custom"@,
    }
}

/// The name under which a preset is shown.
pub open spec fn preset_label(p: PresetKind) -> Seq<char> {
    match p {
        PresetKind::Quiet => "Quiet"@,
        PresetKind::Balanced => "Balanced"@,
        PresetKind::Performance => "Power"@,
        PresetKind::Custom => "Custom"@,
    }
}

/// The preset that a stored name stands for; older names are accepted too.
pub open spec fn preset_from_text(v: Seq<char>) -> Option<PresetKind> {
    if v == "Quiet"@ || v == "Silent"@ {
        Some(PresetKind::Quiet)
    } else if v == "Balanced"@ || v == "All-round"@ {
        Some(PresetKind::Balanced)
    } else if v == "Performance"@ || v == "High performance"@ {
        Some(PresetKind::Performance)
    } else if v == "Custom"@ {
        Some(PresetKind::Custom)
    } else {
        None
    }
}

impl PresetKind {
    /// The name under which the preset is stored.
    pub fn as_str(self) -> (r: &'static str)
        ensures
            r@ == preset_name(self),
    {
        match self {
            PresetKind::Quiet => "Quiet",
            PresetKind::Balanced => "Balanced",
            PresetKind::Performance => "Performance",
            PresetKind::Custom => "Custom",
        }
    }

    /// The name under which the preset is shown.
    pub fn ui_label(self) -> (r: &'static str)
        ensures
            r@ == preset_label(self),
    {
        match self {
            PresetKind::Quiet => "Quiet",
            PresetKind::Balanced => "Balanced",
            PresetKind::Performance => "Power",
            PresetKind::Custom => "Custom",
        }
    }

    /// The preset that a stored name stands for, if any.
    pub fn from_str(value: &str) -> (r: Option<Self>)
        ensures
            r == preset_from_text(value@),
    {
        let v = crate::text::chars_of(value);
        Self::from_chars(&v)
    }

    /// `from_str` on a text given as its characters.
    pub fn from_chars(v: &Vec<char>) -> (r: Option<Self>)
        ensures
            r == preset_from_text(v@),
    {
        if chars_equal_str(v, "Quiet") || chars_equal_str(v, "Silent") {
            Some(PresetKind::Quiet)
        } else if chars_equal_str(v, "Balanced") || chars_equal_str(v, "All-round") {
            Some(PresetKind::Balanced)
        } else if chars_equal_str(v, "Performance") || chars_equal_str(v, "High performance") {
            Some(PresetKind::Performance)
        } else if chars_equal_str(v, "Custom") {
            Some(PresetKind::Custom)
        } else {
            None
        }
    }
}

/// Every preset is read back from the name it is stored under.
pub proof fn lemma_preset_name_round_trip(p: PresetKind)
    ensures
        preset_from_text(preset_name(p)) == Some(p),
{
    reveal_strlit("Quiet");
    reveal_strlit("Silent");
    reveal_strlit("Balanced");
    reveal_strlit("All-round");
    reveal_strlit("Performance");
    reveal_strlit("High performance");
    reveal_strlit("Custom");
    assert("Quiet"@.len() == 5);
    assert("Silent"@.len() == 6);
    assert("Balanced"@.len() == 8);
    assert("All-round"@.len() == 9);
    assert("Performance"@.len() == 11);
    assert("High performance"@.len() == 16);
    assert("Custom"@.len() == 6);
    assert("Custom"@[0] != "Silent"@[0]);
}

// ---------------------------------------------------------------------------
// Curves
// ---------------------------------------------------------------------------

pub open spec fn point(temp_c: u8, speed_percent: u8) -> CurvePoint {
    CurvePoint { temp_c, speed_percent }
}

/// The built-in curve of each preset.
pub open spec fn default_curve(p: PresetKind) -> Seq<CurvePoint> {
    match p {
        PresetKind::Quiet => seq![point(20, 1), point(70, 10), point(85, 55), point(100, 100)],
        PresetKind::Balanced => seq![point(20, 15), point(60, 30), point(80, 50), point(100, 100)],
        PresetKind::Performance => seq![
            point(20, 15),
            point(40, 35),
            point(75, 75),
            point(85, 100),
        ],
        PresetKind::Custom => seq![point(35, 25), point(50, 45), point(70, 72), point(85, 100)],
    }
}

/// The built-in curve of `preset`.
pub fn default_curve_for(preset: PresetKind) -> (r: Vec<CurvePoint>)
    ensures
        r@ == default_curve(preset),
{
    let r = match preset {
        PresetKind::Quiet => vec![
            CurvePoint { temp_c: 20, speed_percent: 1 },
            CurvePoint { temp_c: 70, speed_percent: 10 },
            CurvePoint { temp_c: 85, speed_percent: 55 },
            CurvePoint { temp_c: 100, speed_percent: 100 },
        ],
        PresetKind::Balanced => vec![
            CurvePoint { temp_c: 20, speed_percent: 15 },
            CurvePoint { temp_c: 60, speed_percent: 30 },
            CurvePoint { temp_c: 80, speed_percent: 50 },
            CurvePoint { temp_c: 100, speed_percent: 100 },
        ],
        PresetKind::Performance => vec![
            CurvePoint { temp_c: 20, speed_percent: 15 },
            CurvePoint { temp_c: 40, speed_percent: 35 },
            CurvePoint { temp_c: 75, speed_percent: 75 },
            CurvePoint { temp_c: 85, speed_percent: 100 },
        ],
        PresetKind::Custom => vec![
            CurvePoint { temp_c: 35, speed_percent: 25 },
            CurvePoint { temp_c: 50, speed_percent: 45 },
            CurvePoint { temp_c: 70, speed_percent: 72 },
            CurvePoint { temp_c: 85, speed_percent: 100 },
        ],
    };
    proof {
        assert(r@ =~= default_curve(preset));
    }
    r
}

/// Stable insertion of `x` into `s`: `x` goes after every point whose
/// temperature is at most its own, counted from the end.
pub open spec fn insert_by_temp(s: Seq<CurvePoint>, x: CurvePoint) -> Seq<CurvePoint>
    decreases s.len(),
{
    if s.len() == 0 {
        seq![x]
    } else if s.last().temp_c <= x.temp_c {
        s.push(x)
    } else {
        insert_by_temp(s.drop_last(), x).push(s.last())
    }
}

/// `s` stably sorted by temperature (what `sort_by_key` on `temp_c` gives).
pub open spec fn sort_by_temp(s: Seq<CurvePoint>) -> Seq<CurvePoint>
    decreases s.len(),
{
    if s.len() == 0 {
        s
    } else {
        insert_by_temp(sort_by_temp(s.drop_last()), s.last())
    }
}

pub open spec fn clamp(v: u8, lo: u8, hi: u8) -> u8 {
    if v < lo {
        lo
    } else if v > hi {
        hi
    } else {
        v
    }
}

/// A point with its temperature held to 20..=100 and its speed to 0..=100.
pub open spec fn clamp_point(p: CurvePoint) -> CurvePoint {
    CurvePoint { temp_c: clamp(p.temp_c, 20, 100), speed_percent: clamp(p.speed_percent, 0, 100) }
}

/// What `normalize_curve` makes of a curve: sorted by temperature, then
/// every point clamped.
pub open spec fn normalized(s: Seq<CurvePoint>) -> Seq<CurvePoint> {
    let t = sort_by_temp(s);
    Seq::new(t.len(), |i: int| clamp_point(t[i]))
}

proof fn lemma_insert_at(s: Seq<CurvePoint>, x: CurvePoint, pos: int)
    requires
        0 <= pos <= s.len(),
        forall|j: int| pos <= j < s.len() ==> (#[trigger] s[j]).temp_c > x.temp_c,
        pos > 0 ==> s[pos - 1].temp_c <= x.temp_c,
    ensures
        insert_by_temp(s, x) == s.insert(pos, x),
    decreases s.len(),
{
    if s.len() == 0 {
        assert(s.insert(pos, x) =~= seq![x]);
    } else if s.last().temp_c <= x.temp_c {
        assert(pos == s.len());
        assert(s.insert(pos, x) =~= s.push(x));
    } else {
        lemma_insert_at(s.drop_last(), x, pos);
        assert(s.drop_last().insert(pos, x).push(s.last()) =~= s.insert(pos, x));
    }
}

/// Sorts `curve` by temperature, keeping the order of points with equal
/// temperatures, then clamps every point.
pub fn normalize_curve(curve: &mut Vec<CurvePoint>)
    ensures
        final(curve)@ == normalized(old(curve)@),
{
    let mut sorted: Vec<CurvePoint> = Vec::new();
    let n: usize = curve.len();
    let mut i: usize = 0;
    while i < n
        invariant
            n == curve@.len(),
            curve@ == old(curve)@,
            i <= n,
            sorted@ == sort_by_temp(curve@.take(i as int)),
        decreases n - i,
    {
        let x = curve[i];
        let mut pos: usize = sorted.len();
        while pos > 0 && sorted[pos - 1].temp_c > x.temp_c
            invariant
                pos <= sorted@.len(),
                forall|j: int| pos <= j < sorted@.len() ==> (#[trigger] sorted@[j]).temp_c
                    > x.temp_c,
            decreases pos,
        {
            pos = pos - 1;
        }
        proof {
            lemma_insert_at(sorted@, x, pos as int);
            assert(curve@.take(i + 1).drop_last() =~= curve@.take(i as int));
        }
        sorted.insert(pos, x);
        i = i + 1;
    }
    proof {
        assert(curve@.take(n as int) =~= curve@);
    }
    let ghost t = sorted@;
    let mut k: usize = 0;
    while k < sorted.len()
        invariant
            sorted@.len() == t.len(),
            t == sort_by_temp(old(curve)@),
            k <= t.len(),
            forall|j: int| 0 <= j < k ==> sorted@[j] == clamp_point(t[j]),
            forall|j: int| k <= j < t.len() ==> sorted@[j] == t[j],
        decreases t.len() - k,
    {
        let p = sorted[k];
        let q = CurvePoint {
            temp_c: if p.temp_c < 20 {
                20
            } else if p.temp_c > 100 {
                100
            } else {
                p.temp_c
            },
            speed_percent: if p.speed_percent > 100 {
                100
            } else {
                p.speed_percent
            },
        };
        sorted.set(k, q);
        k = k + 1;
    }
    proof {
        assert(sorted@ =~= normalized(old(curve)@));
    }
    *curve = sorted;
}

// ---------------------------------------------------------------------------
// Laws of normalization
// ---------------------------------------------------------------------------

/// Temperatures never decrease along `s`.
pub open spec fn sorted_by_temp(s: Seq<CurvePoint>) -> bool {
    forall|i: int, j: int| 0 <= i <= j < s.len() ==> s[i].temp_c <= s[j].temp_c
}

/// The points of `s` whose temperature is `k`, in their order in `s`.
pub open spec fn points_at(s: Seq<CurvePoint>, k: u8) -> Seq<CurvePoint>
    decreases s.len(),
{
    if s.len() == 0 {
        s
    } else if s.last().temp_c == k {
        points_at(s.drop_last(), k).push(s.last())
    } else {
        points_at(s.drop_last(), k)
    }
}

/// Every point of a normalized curve lies in the clamped ranges.
pub open spec fn within_limits(s: Seq<CurvePoint>) -> bool {
    forall|i: int|
        0 <= i < s.len() ==> 20 <= (#[trigger] s[i]).temp_c <= 100 && s[i].speed_percent <= 100
}

proof fn lemma_insert_bound(s: Seq<CurvePoint>, x: CurvePoint, b: u8)
    requires
        forall|i: int| 0 <= i < s.len() ==> (#[trigger] s[i]).temp_c <= b,
        x.temp_c <= b,
    ensures
        forall|i: int|
            0 <= i < insert_by_temp(s, x).len() ==> (#[trigger] insert_by_temp(s, x)[i]).temp_c
                <= b,
        insert_by_temp(s, x).len() == s.len() + 1,
    decreases s.len(),
{
    if s.len() > 0 && s.last().temp_c > x.temp_c {
        lemma_insert_bound(s.drop_last(), x, b);
    }
}

proof fn lemma_insert_sorted(s: Seq<CurvePoint>, x: CurvePoint)
    requires
        sorted_by_temp(s),
    ensures
        sorted_by_temp(insert_by_temp(s, x)),
    decreases s.len(),
{
    if s.len() > 0 && s.last().temp_c > x.temp_c {
        let d = s.drop_last();
        lemma_insert_sorted(d, x);
        lemma_insert_bound(d, x, s.last().temp_c);
        let r = insert_by_temp(d, x);
        assert(insert_by_temp(s, x) == r.push(s.last()));
    }
}

proof fn lemma_insert_multiset(s: Seq<CurvePoint>, x: CurvePoint)
    ensures
        insert_by_temp(s, x).to_multiset() =~= s.to_multiset().insert(x),
    decreases s.len(),
{
    if s.len() == 0 {
        assert(seq![x] =~= s.push(x));
    } else if s.last().temp_c > x.temp_c {
        lemma_insert_multiset(s.drop_last(), x);
        assert(s.drop_last().push(s.last()) =~= s);
    }
}

proof fn lemma_insert_points_at(s: Seq<CurvePoint>, x: CurvePoint, k: u8)
    ensures
        points_at(insert_by_temp(s, x), k) == (if x.temp_c == k {
            points_at(s, k).push(x)
        } else {
            points_at(s, k)
        }),
    decreases s.len(),
{
    if s.len() == 0 {
        assert(seq![x].drop_last() =~= s);
    } else if s.last().temp_c <= x.temp_c {
        assert(s.push(x).drop_last() =~= s);
    } else {
        let d = s.drop_last();
        lemma_insert_points_at(d, x, k);
        let r = insert_by_temp(d, x);
        assert(r.push(s.last()).drop_last() =~= r);
    }
}

/// Sorting by temperature yields a curve whose temperatures never decrease.
pub proof fn lemma_sort_sorted(s: Seq<CurvePoint>)
    ensures
        sorted_by_temp(sort_by_temp(s)),
        sort_by_temp(s).len() == s.len(),
    decreases s.len(),
{
    if s.len() > 0 {
        lemma_sort_sorted(s.drop_last());
        lemma_insert_sorted(sort_by_temp(s.drop_last()), s.last());
        lemma_insert_len(sort_by_temp(s.drop_last()), s.last());
    }
}

proof fn lemma_insert_len(s: Seq<CurvePoint>, x: CurvePoint)
    ensures
        insert_by_temp(s, x).len() == s.len() + 1,
    decreases s.len(),
{
    if s.len() > 0 && s.last().temp_c > x.temp_c {
        lemma_insert_len(s.drop_last(), x);
    }
}

/// Sorting by temperature only reorders the points: it keeps each one as
/// often as it occurs.
pub proof fn lemma_sort_permutes(s: Seq<CurvePoint>)
    ensures
        sort_by_temp(s).to_multiset() =~= s.to_multiset(),
    decreases s.len(),
{
    if s.len() > 0 {
        lemma_sort_permutes(s.drop_last());
        lemma_insert_multiset(sort_by_temp(s.drop_last()), s.last());
        assert(s.drop_last().push(s.last()) =~= s);
    }
}

/// Sorting by temperature is stable: the points that share a temperature
/// keep their order.
pub proof fn lemma_sort_stable(s: Seq<CurvePoint>, k: u8)
    ensures
        points_at(sort_by_temp(s), k) == points_at(s, k),
    decreases s.len(),
{
    if s.len() > 0 {
        lemma_sort_stable(s.drop_last(), k);
        lemma_insert_points_at(sort_by_temp(s.drop_last()), s.last(), k);
    }
}

/// A curve that is already sorted by temperature is left as it is.
pub proof fn lemma_sort_sorted_identity(s: Seq<CurvePoint>)
    requires
        sorted_by_temp(s),
    ensures
        sort_by_temp(s) == s,
    decreases s.len(),
{
    if s.len() > 0 {
        let d = s.drop_last();
        assert(sorted_by_temp(d));
        lemma_sort_sorted_identity(d);
        assert(d.push(s.last()) =~= s);
        if d.len() > 0 {
            assert(d.last().temp_c <= s.last().temp_c);
        }
    }
}

/// A normalized curve keeps the length of the original, is sorted by
/// temperature and lies within the clamped ranges; each of its points is the
/// clamp of a point that the original holds.
pub proof fn lemma_normalized_shape(s: Seq<CurvePoint>)
    ensures
        normalized(s).len() == s.len(),
        sorted_by_temp(normalized(s)),
        within_limits(normalized(s)),
        forall|i: int|
            0 <= i < s.len() ==> #[trigger] normalized(s)[i] == clamp_point(sort_by_temp(s)[i]),
{
    lemma_sort_sorted(s);
}

/// Normalizing twice gives what normalizing once gives.
pub proof fn lemma_normalize_idempotent(s: Seq<CurvePoint>)
    ensures
        normalized(normalized(s)) == normalized(s),
{
    let n = normalized(s);
    lemma_normalized_shape(s);
    lemma_sort_sorted_identity(n);
    assert(normalized(n) =~= n);
}

// ---------------------------------------------------------------------------
// The application configuration
// ---------------------------------------------------------------------------

/// The settings that the daemon and the interface share.
#[derive(Clone, Debug)]
pub struct AppConfig {
    pub active_preset: PresetKind,
    pub automatic_control_enabled: bool,
    pub autostart_enabled: bool,
    pub custom_curve: Vec<CurvePoint>,
}

/// An `AppConfig` as a mathematical value.
pub ghost struct ConfigModel {
    pub active_preset: PresetKind,
    pub automatic_control_enabled: bool,
    pub autostart_enabled: bool,
    pub custom_curve: Seq<CurvePoint>,
}

impl View for AppConfig {
    type V = ConfigModel;

    open spec fn view(&self) -> ConfigModel {
        ConfigModel {
            active_preset: self.active_preset,
            automatic_control_enabled: self.automatic_control_enabled,
            autostart_enabled: self.autostart_enabled,
            custom_curve: self.custom_curve@,
        }
    }
}

/// The configuration used when none is stored.
pub open spec fn default_config() -> ConfigModel {
    ConfigModel {
        active_preset: PresetKind::Balanced,
        automatic_control_enabled: true,
        autostart_enabled: false,
        custom_curve: default_curve(PresetKind::Custom),
    }
}

impl Default for AppConfig {
    fn default() -> (r: Self)
        ensures
            r@ == default_config(),
    {
        AppConfig {
            active_preset: PresetKind::Balanced,
            automatic_control_enabled: true,
            autostart_enabled: false,
            custom_curve: default_curve_for(PresetKind::Custom),
        }
    }
}

/// The curve that the active preset prescribes.
pub open spec fn active_curve(c: ConfigModel) -> Seq<CurvePoint> {
    match c.active_preset {
        PresetKind::Custom => c.custom_curve,
        p => default_curve(p),
    }
}

/// The curve that the active preset of `config` prescribes.
pub fn curve_for_preset(config: &AppConfig) -> (r: Vec<CurvePoint>)
    ensures
        r@ == active_curve(config@),
{
    match config.active_preset {
        PresetKind::Custom => {
            let r = config.custom_curve.clone();
            proof {
                assert(r@ =~= config.custom_curve@);
            }
            r
        },
        preset => default_curve_for(preset),
    }
}

/// The curve that applies to a configuration is the preset's built-in
/// curve for every preset but `Custom`, and the configuration's own curve
/// for `Custom`; what the configuration's own curve holds matters only then.
pub proof fn lemma_active_curve(c: ConfigModel, own: Seq<CurvePoint>)
    ensures
        c.active_preset != PresetKind::Custom ==> active_curve(c) == default_curve(c.active_preset),
        c.active_preset == PresetKind::Custom ==> active_curve(c) == c.custom_curve,
        c.active_preset != PresetKind::Custom ==> active_curve(ConfigModel { custom_curve: own, ..c })
            == active_curve(c),
{
}

/// The built-in curves: four points each, sorted by temperature, within the
/// clamped ranges, reaching full speed at the end, and no two presets share
/// one.
pub proof fn lemma_default_curves(p: PresetKind, q: PresetKind)
    ensures
        default_curve(p).len() == 4,
        sorted_by_temp(default_curve(p)),
        within_limits(default_curve(p)),
        default_curve(p)[3].speed_percent == 100,
        normalized(default_curve(p)) == default_curve(p),
        p != q ==> default_curve(p) != default_curve(q),
{
    let s = default_curve(p);
    let t = default_curve(q);
    assert(sorted_by_temp(s));
    lemma_sort_sorted_identity(s);
    assert(normalized(s) =~= s);
    if p != q {
        assert(s[1] != t[1] || s[0] != t[0]);
    }
}

} // verus!
