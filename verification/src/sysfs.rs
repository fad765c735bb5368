//! The fans and temperature sensors that the kernel exposes under sysfs:
//! their paths, what a reading means, and what is written back.
use vstd::prelude::*;

use crate::error::FanControlError;
use crate::paths::{file_name_of, path_file_name, path_with_file_name, with_file_name};
use crate::text::{
    chars_equal_str, chars_of, decimal, decimal_string, parse_unsigned, parse_unsigned_chars,
    trim, trim_str, views, IntErrorKind,
};

verus! {

// ---------------------------------------------------------------------------
// Paths
// ---------------------------------------------------------------------------

/// The file name that `join_suffix` appends to.
pub open spec fn suffix_base(path: Seq<char>) -> Seq<char> {
    match path_file_name(path) {
        Some(n) => n,
        None => "fan"@,
    }
}

/// The sibling of `path` whose name is the name of `path` followed by
/// `suffix` (`fan1` and `_input` give `fan1_input`); a path without a file
/// name counts as `fan`.
pub fn join_suffix(path: &str, suffix: &str) -> (r: String)
    ensures
        r@ == path_with_file_name(path@, suffix_base(path@) + suffix@),
{
    let mut name = match file_name_of(path) {
        Some(n) => n,
        None => "fan".to_owned(),
    };
    name.append(suffix);
    with_file_name(path, name.as_str())
}

/// The file name of a fan's input file without its `_input` ending.
pub open spec fn fan_name_of_input(input: Seq<char>) -> Option<Seq<char>> {
    match path_file_name(input) {
        Some(n) => if n.len() >= 6 && n.skip(n.len() - 6) == "_input"@ {
            Some(n.take(n.len() - 6))
        } else {
            None
        },
        None => None,
    }
}

/// The base path of a fan (`.../fan1`) from the path of its input file
/// (`.../fan1_input`).
pub fn input_to_base_path(input_path: &str) -> (r: Result<String, FanControlError>)
    ensures
        match r {
            Ok(p) => fan_name_of_input(input_path@) matches Some(n) && p@ == path_with_file_name(
                input_path@,
                n,
            ),
            Err(e) => {
                &&& fan_name_of_input(input_path@) is None
                &&& e matches FanControlError::InvalidFanPath(q) && q@ == input_path@
            },
        },
{
    let file_name = match file_name_of(input_path) {
        Some(n) => n,
        None => {
            return Err(FanControlError::InvalidFanPath(input_path.to_owned()));
        },
    };
    let chars = chars_of(file_name.as_str());
    let n: usize = chars.len();
    let suffix = chars_of("_input");
    proof {
        reveal_strlit("_input");
        assert(suffix@.len() == 6);
    }
    if n < 6 {
        return Err(FanControlError::InvalidFanPath(input_path.to_owned()));
    }
    let mut i: usize = 0;
    while i < 6
        invariant
            n == chars@.len(),
            n >= 6,
            suffix@ == "_input"@,
            suffix@.len() == 6,
            path_file_name(input_path@) == Some(chars@),
            i <= 6,
            forall|j: int| 0 <= j < i ==> chars@[n - 6 + j] == suffix@[j],
        decreases 6 - i,
    {
        if chars[n - 6 + i] != suffix[i] {
            proof {
                assert(chars@.skip(n - 6)[i as int] != "_input"@[i as int]);
                assert(chars@.skip(n - 6) != "_input"@);
                assert(fan_name_of_input(input_path@) is None);
            }
            return Err(FanControlError::InvalidFanPath(input_path.to_owned()));
        }
        i = i + 1;
    }
    proof {
        assert(chars@.skip(n - 6) =~= "_input"@);
    }
    let fan_name = file_name.as_str().substring_char(0, n - 6);
    proof {
        assert(fan_name@ =~= chars@.take(n - 6));
    }
    Ok(with_file_name(input_path, fan_name))
}

/// The name of a fan: the file name of its base path.
pub fn fan_name_of(base_path: &str) -> (r: Result<String, FanControlError>)
    ensures
        match r {
            Ok(n) => path_file_name(base_path@) == Some(n@),
            Err(e) => {
                &&& path_file_name(base_path@) is None
                &&& e matches FanControlError::InvalidFanPath(q) && q@ == base_path@
            },
        },
{
    match file_name_of(base_path) {
        Some(n) => Ok(n),
        None => Err(FanControlError::InvalidFanPath(base_path.to_owned())),
    }
}

// ---------------------------------------------------------------------------
// Readings
// ---------------------------------------------------------------------------

/// The number that a sysfs attribute holds: its text, trimmed, as an
/// unsigned 32-bit integer.
pub open spec fn attribute_value(contents: Seq<char>) -> Result<nat, IntErrorKind> {
    parse_unsigned(trim(contents), 0xffff_ffff)
}

/// Interprets the text read from the attribute at `path`.
pub fn parse_attribute(path: &str, contents: &str) -> (r: Result<u32, FanControlError>)
    ensures
        match r {
            Ok(v) => attribute_value(contents@) == Ok::<nat, IntErrorKind>(v as nat),
            Err(e) => e matches FanControlError::ParseInt { path: p, source: k } && p@ == path@
                && attribute_value(contents@) == Err::<nat, IntErrorKind>(k),
        },
{
    let t = chars_of(trim_str(contents));
    match parse_unsigned_chars(&t, 0xffff_ffff) {
        Ok(v) => Ok(v),
        Err(k) => Err(FanControlError::ParseInt { path: path.to_owned(), source: k }),
    }
}

/// Whole degrees from a reading in millidegrees, kept to its low eight bits
/// as `as u8` does.
pub open spec fn degrees_of(raw: u32) -> u8 {
    ((raw / 1000) % 256) as u8
}

/// The temperature that a raw reading stands for; an error passes through.
pub fn read_temperature(raw: Result<u32, FanControlError>) -> (r: Result<u8, FanControlError>)
    ensures
        match raw {
            Ok(v) => r == Ok::<u8, FanControlError>(degrees_of(v)),
            Err(e) => r == Err::<u8, FanControlError>(e),
        },
{
    match raw {
        Ok(v) => Ok(((v / 1000) % 256) as u8),
        Err(e) => Err(e),
    }
}

// ---------------------------------------------------------------------------
// Temperature sources
// ---------------------------------------------------------------------------

/// A temperature sensor and the last value read from it.
#[derive(Clone, Debug)]
pub struct TemperatureSource {
    pub name: String,
    pub path: String,
    pub last_temp_c: Option<u8>,
}

/// The temperatures of the CPU and the GPU, where known.
#[derive(Clone, Copy, Debug, PartialEq, Eq, Structural)]
pub struct TemperatureSnapshot {
    pub cpu_temp_c: Option<u8>,
    pub gpu_temp_c: Option<u8>,
}

impl Default for TemperatureSnapshot {
    fn default() -> (r: Self)
        ensures
            r.cpu_temp_c is None,
            r.gpu_temp_c is None,
    {
        TemperatureSnapshot { cpu_temp_c: None, gpu_temp_c: None }
    }
}

/// The snapshot that the sources `s` give with the readings `rd`: for each
/// of `CPU` and `GPU`, the reading of the last source so named.
pub open spec fn snapshot_of(s: Seq<TemperatureSource>, rd: Seq<Option<u8>>) -> TemperatureSnapshot
    decreases s.len(),
{
    if s.len() == 0 {
        TemperatureSnapshot { cpu_temp_c: None, gpu_temp_c: None }
    } else {
        let before = snapshot_of(s.drop_last(), rd.take(s.len() - 1));
        let r = rd[s.len() - 1];
        if s.last().name@ == "CPU"@ {
            TemperatureSnapshot { cpu_temp_c: r, ..before }
        } else if s.last().name@ == "GPU"@ {
            TemperatureSnapshot { gpu_temp_c: r, ..before }
        } else {
            before
        }
    }
}

/// The larger of two temperatures that are both known, or the one that is.
pub open spec fn effective_of(cpu: Option<u8>, gpu: Option<u8>) -> Option<u8> {
    match (cpu, gpu) {
        (Some(c), Some(g)) => Some(if c >= g { c } else { g }),
        (Some(c), None) => Some(c),
        (None, Some(g)) => Some(g),
        (None, None) => None,
    }
}

impl TemperatureSnapshot {
    /// Records the readings `readings[i]` (what reading the file of
    /// `sources[i]` gave, `None` when it failed) in the sources and collects
    /// the CPU and GPU temperatures.
    pub fn read_from(sources: &mut Vec<TemperatureSource>, readings: &Vec<Option<u8>>) -> (r: Self)
        requires
            readings@.len() == old(sources)@.len(),
        ensures
            final(sources)@.len() == old(sources)@.len(),
            forall|i: int|
                0 <= i < old(sources)@.len() ==> {
                    &&& (#[trigger] final(sources)@[i]).name == old(sources)@[i].name
                    &&& final(sources)@[i].path == old(sources)@[i].path
                    &&& final(sources)@[i].last_temp_c == readings@[i]
                },
            r == snapshot_of(old(sources)@, readings@),
    {
        let mut snapshot = TemperatureSnapshot::default();
        let n: usize = sources.len();
        let mut i: usize = 0;
        while i < n
            invariant
                n == sources@.len() == old(sources)@.len() == readings@.len(),
                i <= n,
                forall|j: int|
                    0 <= j < n ==> {
                        &&& (#[trigger] sources@[j]).name == old(sources)@[j].name
                        &&& sources@[j].path == old(sources)@[j].path
                        &&& (j < i ==> sources@[j].last_temp_c == readings@[j])
                    },
                snapshot == snapshot_of(old(sources)@.take(i as int), readings@.take(i as int)),
            decreases n - i,
        {
            let reading = readings[i];
            let updated = TemperatureSource {
                name: sources[i].name.clone(),
                path: sources[i].path.clone(),
                last_temp_c: reading,
            };
            let name = chars_of(updated.name.as_str());
            let is_cpu = chars_equal_str(&name, "CPU");
            let is_gpu = chars_equal_str(&name, "GPU");
            sources.set(i, updated);
            if is_cpu {
                snapshot.cpu_temp_c = reading;
            } else if is_gpu {
                snapshot.gpu_temp_c = reading;
            }
            proof {
                let s = old(sources)@.take(i + 1);
                assert(s.drop_last() =~= old(sources)@.take(i as int));
                assert(readings@.take(i + 1).take(i as int) =~= readings@.take(i as int));
                assert(s.last() == old(sources)@[i as int]);
            }
            i = i + 1;
        }
        proof {
            assert(old(sources)@.take(n as int) =~= old(sources)@);
            assert(readings@.take(n as int) =~= readings@);
        }
        snapshot
    }

    /// The temperature that the fan curve is applied to.
    pub fn effective_temp_c(&self) -> (r: Option<u8>)
        ensures
            r == effective_of(self.cpu_temp_c, self.gpu_temp_c),
    {
        match (self.cpu_temp_c, self.gpu_temp_c) {
            (Some(cpu), Some(gpu)) => Some(if cpu >= gpu { cpu } else { gpu }),
            (Some(cpu), None) => Some(cpu),
            (None, Some(gpu)) => Some(gpu),
            (None, None) => None,
        }
    }
}

/// The first of `paths` that is usable, where `usable[i]` tells whether
/// `paths[i]` exists and can be read as a temperature.
pub open spec fn first_usable(paths: Seq<Seq<char>>, usable: Seq<bool>) -> Option<Seq<char>>
    decreases paths.len(),
{
    if paths.len() == 0 || usable.len() == 0 {
        None
    } else if usable[0] {
        Some(paths[0])
    } else {
        first_usable(paths.drop_first(), usable.drop_first())
    }
}

/// The first usable sensor file among the matches of a pattern.
pub fn first_usable_path(paths: &Vec<String>, usable: &Vec<bool>) -> (r: Option<String>)
    requires
        paths@.len() == usable@.len(),
    ensures
        match r {
            Some(p) => first_usable(views(paths@), usable@) == Some(p@),
            None => first_usable(views(paths@), usable@) is None,
        },
{
    let n: usize = paths.len();
    let mut i: usize = 0;
    proof {
        assert(views(paths@).skip(0) =~= views(paths@));
        assert(usable@.skip(0) =~= usable@);
    }
    while i < n
        invariant
            n == paths@.len() == usable@.len(),
            i <= n,
            first_usable(views(paths@), usable@) == first_usable(
                views(paths@).skip(i as int),
                usable@.skip(i as int),
            ),
        decreases n - i,
    {
        proof {
            assert(views(paths@).skip(i as int).drop_first() =~= views(paths@).skip(i + 1));
            assert(usable@.skip(i as int).drop_first() =~= usable@.skip(i + 1));
            assert(views(paths@).skip(i as int)[0] == paths@[i as int]@);
        }
        if usable[i] {
            return Some(paths[i].clone());
        }
        i = i + 1;
    }
    None
}

/// The sources found: the CPU sensor, then the GPU sensor, each where its
/// file was found.
pub fn discover_temperature_sources(cpu_path: Option<String>, gpu_path: Option<String>) -> (r: Vec<
    TemperatureSource,
>)
    ensures
        r@.len() == (if cpu_path is Some { 1int } else { 0 }) + (if gpu_path is Some { 1int } else { 0 }),
        forall|i: int|
            0 <= i < r@.len() ==> (#[trigger] r@[i]).last_temp_c is None && (r@[i].name@ == "CPU"@
                || r@[i].name@ == "GPU"@),
        cpu_path matches Some(p) ==> r@[0].name@ == "CPU"@ && r@[0].path == p,
        gpu_path matches Some(p) ==> r@[r@.len() - 1].name@ == "GPU"@ && r@[r@.len() - 1].path == p,
{
    let mut sources: Vec<TemperatureSource> = Vec::new();
    if let Some(path) = cpu_path {
        sources.push(TemperatureSource { name: "CPU".to_owned(), path, last_temp_c: None });
    }
    if let Some(path) = gpu_path {
        sources.push(TemperatureSource { name: "GPU".to_owned(), path, last_temp_c: None });
    }
    sources
}

// ---------------------------------------------------------------------------
// Fans
// ---------------------------------------------------------------------------

/// A fan: its name (`fan1`), the path that its attribute files share as a
/// prefix, its speed range in rpm and the last state read from it.
#[derive(Clone, Debug)]
pub struct FanEndpoint {
    pub name: String,
    pub base_path: String,
    pub min_speed: u32,
    pub max_speed: u32,
    pub current_speed: Option<u32>,
    pub manual_enabled: Option<bool>,
}

/// A value to be written to a sysfs attribute.
#[derive(Clone, Debug, PartialEq, Eq)]
pub struct SysfsWrite {
    pub path: String,
    pub value: String,
}

/// `v` held to `lo..=hi` (`Ord::clamp`).
pub open spec fn clamp_u32(v: u32, lo: u32, hi: u32) -> u32 {
    if v < lo {
        lo
    } else if v > hi {
        hi
    } else {
        v
    }
}

/// A clamped speed lies in the fan's range.
pub proof fn lemma_clamp_in_range(v: u32, lo: u32, hi: u32)
    requires
        lo <= hi,
    ensures
        lo <= clamp_u32(v, lo, hi) <= hi,
        lo <= v <= hi ==> clamp_u32(v, lo, hi) == v,
{
}

/// The speed in rpm that `percent` of the fan's range stands for.
pub open spec fn rpm_for(min_speed: u32, max_speed: u32, percent: u8) -> int {
    let span: int = if max_speed >= min_speed {
        max_speed - min_speed
    } else {
        0
    };
    min_speed + span * percent / 100
}

impl FanEndpoint {
    /// A fan as discovery finds it, from what reading its `_min`, `_max`,
    /// `_input` and `_manual` attributes gave: the range must be read (the
    /// first failure of the two is returned), while a failed speed or mode
    /// reading only leaves that state unknown.
    pub fn from_reads(
        name: String,
        base_path: String,
        min_speed: Result<u32, FanControlError>,
        max_speed: Result<u32, FanControlError>,
        current_speed: Result<u32, FanControlError>,
        manual_raw: Result<u32, FanControlError>,
    ) -> (r: Result<Self, FanControlError>)
        ensures
            match (min_speed, max_speed) {
                (Err(e), _) => r == Err::<Self, FanControlError>(e),
                (Ok(_), Err(e)) => r == Err::<Self, FanControlError>(e),
                (Ok(lo), Ok(hi)) => r matches Ok(f) && {
                    &&& f.name == name
                    &&& f.base_path == base_path
                    &&& f.min_speed == lo
                    &&& f.max_speed == hi
                    &&& f.current_speed == (match current_speed {
                        Ok(v) => Some(v),
                        Err(_) => None::<u32>,
                    })
                    &&& f.manual_enabled == (match manual_raw {
                        Ok(v) => Some(v != 0),
                        Err(_) => None::<bool>,
                    })
                },
            },
    {
        let min_speed = match min_speed {
            Ok(v) => v,
            Err(e) => {
                return Err(e);
            },
        };
        let max_speed = match max_speed {
            Ok(v) => v,
            Err(e) => {
                return Err(e);
            },
        };
        let current_speed = match current_speed {
            Ok(v) => Some(v),
            Err(_) => None,
        };
        let manual_enabled = match manual_raw {
            Ok(v) => Some(v != 0),
            Err(_) => None,
        };
        Ok(FanEndpoint { name, base_path, min_speed, max_speed, current_speed, manual_enabled })
    }

    /// Records what reading the fan's `_input` and `_manual` attributes gave:
    /// the first failure is returned, and what was read before it is kept.
    pub fn refresh_state(
        &mut self,
        input: Result<u32, FanControlError>,
        manual: Result<u32, FanControlError>,
    ) -> (r: Result<(), FanControlError>)
        ensures
            final(self).name == old(self).name,
            final(self).base_path == old(self).base_path,
            final(self).min_speed == old(self).min_speed,
            final(self).max_speed == old(self).max_speed,
            match input {
                Err(e) => {
                    &&& r == Err::<(), FanControlError>(e)
                    &&& final(self).current_speed == old(self).current_speed
                    &&& final(self).manual_enabled == old(self).manual_enabled
                },
                Ok(speed) => {
                    &&& final(self).current_speed == Some(speed)
                    &&& match manual {
                        Err(e) => r == Err::<(), FanControlError>(e) && final(self).manual_enabled
                            == old(self).manual_enabled,
                        Ok(m) => r == Ok::<(), FanControlError>(()) && final(self).manual_enabled
                            == Some(m != 0),
                    }
                },
            },
    {
        let speed = match input {
            Ok(v) => v,
            Err(e) => {
                return Err(e);
            },
        };
        self.current_speed = Some(speed);
        let m = match manual {
            Ok(v) => v,
            Err(e) => {
                return Err(e);
            },
        };
        self.manual_enabled = Some(m != 0);
        Ok(())
    }

    /// The write that switches the fan to manual control or back.
    pub fn set_manual(&self, enabled: bool) -> (r: SysfsWrite)
        ensures
            r.path@ == path_with_file_name(
                self.base_path@,
                suffix_base(self.base_path@) + "_manual"@,
            ),
            r.value@ == (if enabled {
                "1"@
            } else {
                "0"@
            }),
    {
        let path = join_suffix(self.base_path.as_str(), "_manual");
        let value = if enabled {
            "1"
        } else {
            "0"
        };
        SysfsWrite { path, value: value.to_owned() }
    }

    /// The write that sets the fan's target speed, held to the fan's range.
    pub fn set_speed(&self, requested_speed: u32) -> (r: SysfsWrite)
        requires
            self.min_speed <= self.max_speed,
        ensures
            r.path@ == path_with_file_name(
                self.base_path@,
                suffix_base(self.base_path@) + "_output"@,
            ),
            r.value@ == decimal(clamp_u32(requested_speed, self.min_speed, self.max_speed) as nat),
    {
        let clamped = if requested_speed < self.min_speed {
            self.min_speed
        } else if requested_speed > self.max_speed {
            self.max_speed
        } else {
            requested_speed
        };
        let path = join_suffix(self.base_path.as_str(), "_output");
        SysfsWrite { path, value: decimal_string(clamped) }
    }

    /// The speed in rpm that `percent` of the fan's range stands for.
    pub fn percent_to_rpm(&self, percent: u8) -> (r: u32)
        requires
            rpm_for(self.min_speed, self.max_speed, percent) <= u32::MAX,
            (if self.max_speed >= self.min_speed {
                self.max_speed - self.min_speed
            } else {
                0
            }) * percent <= u32::MAX,
        ensures
            r == rpm_for(self.min_speed, self.max_speed, percent),
    {
        let span: u32 = self.max_speed.saturating_sub(self.min_speed);
        let scaled: u32 = span * (percent as u32);
        self.min_speed + scaled / 100
    }
}

/// Full speed is the top of the range, no speed is the bottom, and more
/// percent never means fewer rpm.
pub proof fn lemma_rpm_range(min_speed: u32, max_speed: u32, p: u8, q: u8)
    requires
        min_speed <= max_speed,
        p <= q <= 100,
    ensures
        rpm_for(min_speed, max_speed, 0) == min_speed,
        rpm_for(min_speed, max_speed, 100) == max_speed,
        min_speed <= rpm_for(min_speed, max_speed, p) <= rpm_for(min_speed, max_speed, q) <= max_speed,
{
    let span: int = max_speed - min_speed;
    assert(0 <= span * p <= span * q <= span * 100) by (nonlinear_arith)
        requires
            0 <= span,
            p <= q <= 100,
    ;
    assert(span * p / 100 <= span * q / 100) by (nonlinear_arith)
        requires
            0 <= span * p <= span * q,
    ;
    assert(span * q / 100 <= span) by (nonlinear_arith)
        requires
            0 <= span * q <= span * 100,
    ;
    assert(span * 100 / 100 == span) by (nonlinear_arith);
    assert(span * 0 == 0);
}

// ---------------------------------------------------------------------------
// Ordering fans by name
// ---------------------------------------------------------------------------

/// Whether `a` comes before `b` in the order of `str` (character by
/// character, a proper prefix first).
pub open spec fn text_lt(a: Seq<char>, b: Seq<char>) -> bool
    decreases a.len(),
{
    if a.len() == 0 {
        b.len() > 0
    } else if b.len() == 0 {
        false
    } else if a[0] != b[0] {
        a[0] < b[0]
    } else {
        text_lt(a.drop_first(), b.drop_first())
    }
}

proof fn lemma_text_lt_skip(a: Seq<char>, b: Seq<char>, i: int)
    requires
        0 <= i <= a.len(),
        i <= b.len(),
        forall|j: int| 0 <= j < i ==> a[j] == b[j],
    ensures
        text_lt(a, b) == text_lt(a.skip(i), b.skip(i)),
    decreases i,
{
    if i > 0 {
        assert(a.drop_first().skip(i - 1) =~= a.skip(i));
        assert(b.drop_first().skip(i - 1) =~= b.skip(i));
        assert forall|j: int| 0 <= j < i - 1 implies a.drop_first()[j] == b.drop_first()[j] by {
            assert(a[j + 1] == b[j + 1]);
        }
        lemma_text_lt_skip(a.drop_first(), b.drop_first(), i - 1);
    } else {
        assert(a.skip(0) =~= a);
        assert(b.skip(0) =~= b);
    }
}

/// Whether text `a` comes before text `b` in the order of `str`.
pub fn text_less(a: &str, b: &str) -> (r: bool)
    ensures
        r == text_lt(a@, b@),
{
    let x = chars_of(a);
    let y = chars_of(b);
    let mut i: usize = 0;
    while i < x.len() && i < y.len() && x[i] == y[i]
        invariant
            i <= x@.len(),
            i <= y@.len(),
            forall|j: int| 0 <= j < i ==> x@[j] == y@[j],
        decreases x@.len() - i,
    {
        i = i + 1;
    }
    proof {
        lemma_text_lt_skip(x@, y@, i as int);
    }
    if i == x.len() {
        i < y.len()
    } else if i == y.len() {
        false
    } else {
        x[i] < y[i]
    }
}

/// Stable insertion of `f` into `s` by name.
pub open spec fn insert_by_name(s: Seq<FanEndpoint>, f: FanEndpoint) -> Seq<FanEndpoint>
    decreases s.len(),
{
    if s.len() == 0 {
        seq![f]
    } else if !text_lt(f.name@, s.last().name@) {
        s.push(f)
    } else {
        insert_by_name(s.drop_last(), f).push(s.last())
    }
}

/// `s` stably sorted by name (what `sort_by` with `str` comparison gives).
pub open spec fn sort_by_name(s: Seq<FanEndpoint>) -> Seq<FanEndpoint>
    decreases s.len(),
{
    if s.len() == 0 {
        s
    } else {
        insert_by_name(sort_by_name(s.drop_last()), s.last())
    }
}

proof fn lemma_insert_by_name_at(s: Seq<FanEndpoint>, f: FanEndpoint, pos: int)
    requires
        0 <= pos <= s.len(),
        forall|j: int| pos <= j < s.len() ==> text_lt(f.name@, (#[trigger] s[j]).name@),
        pos > 0 ==> !text_lt(f.name@, s[pos - 1].name@),
    ensures
        insert_by_name(s, f) == s.insert(pos, f),
    decreases s.len(),
{
    if s.len() == 0 {
        assert(s.insert(pos, f) =~= seq![f]);
    } else if !text_lt(f.name@, s.last().name@) {
        assert(pos == s.len());
        assert(s.insert(pos, f) =~= s.push(f));
    } else {
        lemma_insert_by_name_at(s.drop_last(), f, pos);
        assert(s.drop_last().insert(pos, f).push(s.last()) =~= s.insert(pos, f));
    }
}

/// The fans found, ordered by name; `NoFans` when there are none.
pub fn finish_fan_discovery(fans: Vec<FanEndpoint>) -> (r: Result<Vec<FanEndpoint>, FanControlError>)
    ensures
        match r {
            Ok(v) => fans@.len() > 0 && v@ == sort_by_name(fans@),
            Err(e) => fans@.len() == 0 && e == FanControlError::NoFans,
        },
{
    let ghost orig = fans@;
    let mut rest = fans;
    let mut sorted: Vec<FanEndpoint> = Vec::new();
    let n: usize = rest.len();
    let mut k: usize = 0;
    while k < n
        invariant
            n == orig.len(),
            k <= n,
            rest@ == orig.skip(k as int),
            sorted@ == sort_by_name(orig.take(k as int)),
        decreases n - k,
    {
        let f = rest.remove(0);
        let mut pos: usize = sorted.len();
        while pos > 0 && text_less(f.name.as_str(), sorted[pos - 1].name.as_str())
            invariant
                pos <= sorted@.len(),
                forall|j: int| pos <= j < sorted@.len() ==> text_lt(f.name@, (#[trigger] sorted@[j]).name@),
            decreases pos,
        {
            pos = pos - 1;
        }
        proof {
            lemma_insert_by_name_at(sorted@, f, pos as int);
            assert(orig.take(k + 1).drop_last() =~= orig.take(k as int));
            assert(f == orig[k as int]);
            assert(rest@ =~= orig.skip(k + 1));
        }
        sorted.insert(pos, f);
        k = k + 1;
    }
    proof {
        assert(orig.take(n as int) =~= orig);
    }
    if sorted.len() == 0 {
        return Err(FanControlError::NoFans);
    }
    Ok(sorted)
}

// ---------------------------------------------------------------------------
// Laws of the order by name
// ---------------------------------------------------------------------------

proof fn lemma_text_lt_irreflexive(a: Seq<char>)
    ensures
        !text_lt(a, a),
    decreases a.len(),
{
    if a.len() > 0 {
        lemma_text_lt_irreflexive(a.drop_first());
    }
}

proof fn lemma_text_lt_transitive(a: Seq<char>, b: Seq<char>, c: Seq<char>)
    requires
        text_lt(a, b),
        text_lt(b, c),
    ensures
        text_lt(a, c),
    decreases a.len(),
{
    if a.len() > 0 && b.len() > 0 && c.len() > 0 && a[0] == b[0] && b[0] == c[0] {
        lemma_text_lt_transitive(a.drop_first(), b.drop_first(), c.drop_first());
    }
}

proof fn lemma_text_lt_total(a: Seq<char>, b: Seq<char>)
    requires
        a != b,
    ensures
        text_lt(a, b) || text_lt(b, a),
    decreases a.len(),
{
    if a.len() == 0 && b.len() == 0 {
        assert(a =~= b);
    } else if a.len() > 0 && b.len() > 0 && a[0] == b[0] {
        if a.drop_first() == b.drop_first() {
            assert(a =~= seq![a[0]] + a.drop_first());
            assert(b =~= seq![b[0]] + b.drop_first());
        }
        lemma_text_lt_total(a.drop_first(), b.drop_first());
    }
}

/// "Not after" in the order of `str` is transitive.
proof fn lemma_text_le_transitive(a: Seq<char>, b: Seq<char>, c: Seq<char>)
    requires
        !text_lt(b, a),
        !text_lt(c, b),
    ensures
        !text_lt(c, a),
{
    if text_lt(c, a) {
        if a == b {
        } else {
            lemma_text_lt_total(a, b);
            lemma_text_lt_transitive(c, a, b);
        }
    }
}

/// Names never go down along `s`.
pub open spec fn sorted_by_name(s: Seq<FanEndpoint>) -> bool {
    forall|i: int, j: int| 0 <= i <= j < s.len() ==> !text_lt(s[j].name@, s[i].name@)
}

/// The fans of `s` named `k`, in their order in `s`.
pub open spec fn fans_named(s: Seq<FanEndpoint>, k: Seq<char>) -> Seq<FanEndpoint>
    decreases s.len(),
{
    if s.len() == 0 {
        s
    } else if s.last().name@ == k {
        fans_named(s.drop_last(), k).push(s.last())
    } else {
        fans_named(s.drop_last(), k)
    }
}

proof fn lemma_insert_name_bound(s: Seq<FanEndpoint>, f: FanEndpoint, b: Seq<char>)
    requires
        forall|i: int| 0 <= i < s.len() ==> !text_lt(b, (#[trigger] s[i]).name@),
        !text_lt(b, f.name@),
    ensures
        forall|i: int|
            0 <= i < insert_by_name(s, f).len() ==> !text_lt(
                b,
                (#[trigger] insert_by_name(s, f)[i]).name@,
            ),
        insert_by_name(s, f).len() == s.len() + 1,
    decreases s.len(),
{
    if s.len() > 0 && text_lt(f.name@, s.last().name@) {
        lemma_insert_name_bound(s.drop_last(), f, b);
    }
}

proof fn lemma_insert_name_sorted(s: Seq<FanEndpoint>, f: FanEndpoint)
    requires
        sorted_by_name(s),
    ensures
        sorted_by_name(insert_by_name(s, f)),
    decreases s.len(),
{
    lemma_text_lt_irreflexive(f.name@);
    if s.len() > 0 {
        let last = s.last();
        lemma_text_lt_irreflexive(last.name@);
        if !text_lt(f.name@, last.name@) {
            assert forall|i: int| 0 <= i < s.len() implies !text_lt(f.name@, s[i].name@) by {
                lemma_text_le_transitive(s[i].name@, last.name@, f.name@);
            }
            assert(insert_by_name(s, f) == s.push(f));
        } else {
            let d = s.drop_last();
            lemma_insert_name_sorted(d, f);
            if text_lt(last.name@, f.name@) {
                lemma_text_lt_transitive(f.name@, last.name@, f.name@);
                lemma_text_lt_irreflexive(f.name@);
            }
            lemma_insert_name_bound(d, f, last.name@);
            let r = insert_by_name(d, f);
            assert(insert_by_name(s, f) == r.push(last));
        }
    }
}

proof fn lemma_insert_name_multiset(s: Seq<FanEndpoint>, f: FanEndpoint)
    ensures
        insert_by_name(s, f).to_multiset() =~= s.to_multiset().insert(f),
    decreases s.len(),
{
    broadcast use vstd::seq_lib::group_to_multiset_ensures;

    if s.len() == 0 {
        assert(seq![f] =~= s.push(f));
    } else if text_lt(f.name@, s.last().name@) {
        lemma_insert_name_multiset(s.drop_last(), f);
        assert(s.drop_last().push(s.last()) =~= s);
    }
}

proof fn lemma_insert_fans_named(s: Seq<FanEndpoint>, f: FanEndpoint, k: Seq<char>)
    ensures
        fans_named(insert_by_name(s, f), k) == (if f.name@ == k {
            fans_named(s, k).push(f)
        } else {
            fans_named(s, k)
        }),
    decreases s.len(),
{
    if s.len() == 0 {
        assert(seq![f].drop_last() =~= s);
    } else if !text_lt(f.name@, s.last().name@) {
        assert(s.push(f).drop_last() =~= s);
    } else {
        let d = s.drop_last();
        lemma_insert_fans_named(d, f, k);
        lemma_text_lt_irreflexive(f.name@);
        let r = insert_by_name(d, f);
        assert(r.push(s.last()).drop_last() =~= r);
    }
}

/// Fans come out ordered by name, each fan as often as it went in, and
/// fans that share a name keep their order.
pub proof fn lemma_sort_by_name(s: Seq<FanEndpoint>, k: Seq<char>)
    ensures
        sorted_by_name(sort_by_name(s)),
        sort_by_name(s).to_multiset() =~= s.to_multiset(),
        fans_named(sort_by_name(s), k) == fans_named(s, k),
    decreases s.len(),
{
    broadcast use vstd::seq_lib::group_to_multiset_ensures;

    if s.len() > 0 {
        let d = s.drop_last();
        lemma_sort_by_name(d, k);
        lemma_insert_name_sorted(sort_by_name(d), s.last());
        lemma_insert_name_multiset(sort_by_name(d), s.last());
        lemma_insert_fans_named(sort_by_name(d), s.last(), k);
        assert(d.push(s.last()) =~= s);
    }
}

// ---------------------------------------------------------------------------
// Laws of temperatures
// ---------------------------------------------------------------------------

/// The effective temperature is the hotter of the two when both are known
/// (at least each, and one of them), the known one when only one is, and
/// unknown when neither is.
pub proof fn lemma_effective_is_hotter(cpu: Option<u8>, gpu: Option<u8>)
    ensures
        (cpu is Some && gpu is Some) ==> ({
            &&& effective_of(cpu, gpu) is Some
            &&& effective_of(cpu, gpu)->0 >= cpu->0
            &&& effective_of(cpu, gpu)->0 >= gpu->0
            &&& (effective_of(cpu, gpu)->0 == cpu->0 || effective_of(cpu, gpu)->0 == gpu->0)
        }),
        (cpu is Some && gpu is None) ==> effective_of(cpu, gpu) == cpu,
        (cpu is None && gpu is Some) ==> effective_of(cpu, gpu) == gpu,
        (cpu is None && gpu is None) ==> effective_of(cpu, gpu) is None,
{
}

/// Whether `j` is the last index of `s` whose source is named `name`.
pub open spec fn last_named(s: Seq<TemperatureSource>, name: Seq<char>, j: int) -> bool {
    &&& 0 <= j < s.len()
    &&& s[j].name@ == name
    &&& forall|k: int| j < k < s.len() ==> s[k].name@ != name
}

/// Whether no source of `s` is named `name`.
pub open spec fn none_named(s: Seq<TemperatureSource>, name: Seq<char>) -> bool {
    forall|k: int| 0 <= k < s.len() ==> s[k].name@ != name
}

/// The CPU temperature of a snapshot is the reading of the last source
/// named `CPU` (unknown when there is none), and likewise for the GPU,
/// whatever the other sources are.
pub proof fn lemma_snapshot_readings(s: Seq<TemperatureSource>, rd: Seq<Option<u8>>, j: int)
    requires
        rd.len() == s.len(),
    ensures
        last_named(s, "CPU"@, j) ==> snapshot_of(s, rd).cpu_temp_c == rd[j],
        last_named(s, "GPU"@, j) ==> snapshot_of(s, rd).gpu_temp_c == rd[j],
        none_named(s, "CPU"@) ==> snapshot_of(s, rd).cpu_temp_c is None,
        none_named(s, "GPU"@) ==> snapshot_of(s, rd).gpu_temp_c is None,
    decreases s.len(),
{
    reveal_strlit("CPU");
    reveal_strlit("GPU");
    assert("CPU"@ != "GPU"@) by {
        assert("CPU"@[0] != "GPU"@[0]);
    }
    if s.len() > 0 {
        let n = s.len() - 1;
        let d = s.drop_last();
        let rdd = rd.take(n as int);
        lemma_snapshot_readings(d, rdd, j);
        assert(s.last() == s[n]);
        assert forall|name: Seq<char>| #[trigger] none_named(s, name) implies none_named(d, name) by {
            assert forall|k: int| 0 <= k < d.len() implies d[k].name@ != name by {
                assert(d[k] == s[k]);
            }
        }
        assert forall|name: Seq<char>| #[trigger] last_named(s, name, j) && j < n implies last_named(
            d,
            name,
            j,
        ) by {
            assert(d[j] == s[j]);
            assert forall|k: int| j < k < d.len() implies d[k].name@ != name by {
                assert(d[k] == s[k]);
            }
        }
        if 0 <= j < n {
            assert(rdd[j] == rd[j]);
        }
        assert(none_named(s, "CPU"@) ==> s[n].name@ != "CPU"@);
        assert(none_named(s, "GPU"@) ==> s[n].name@ != "GPU"@);
    }
}

/// The sensor file chosen is the first usable one: `Some` of the path at the
/// lowest usable index, and `None` only when no path is usable.
pub proof fn lemma_first_usable(paths: Seq<Seq<char>>, usable: Seq<bool>, j: int)
    requires
        paths.len() == usable.len(),
    ensures
        (0 <= j < usable.len() && usable[j] && forall|i: int| 0 <= i < j ==> !usable[i])
            ==> first_usable(paths, usable) == Some(paths[j]),
        (forall|i: int| 0 <= i < usable.len() ==> !usable[i]) ==> first_usable(paths, usable) is None,
    decreases paths.len(),
{
    if paths.len() > 0 {
        let dp = paths.drop_first();
        let du = usable.drop_first();
        lemma_first_usable(dp, du, j - 1);
        if forall|i: int| 0 <= i < usable.len() ==> !usable[i] {
            assert(!usable[0]);
            assert forall|i: int| 0 <= i < du.len() implies !du[i] by {
                assert(du[i] == usable[i + 1]);
            }
        }
        if 0 <= j < usable.len() && usable[j] && forall|i: int| 0 <= i < j ==> !usable[i] {
            if j > 0 {
                assert(!usable[0]);
                assert(du[j - 1] == usable[j]);
                assert(dp[j - 1] == paths[j]);
                assert forall|i: int| 0 <= i < j - 1 implies !du[i] by {
                    assert(du[i] == usable[i + 1]);
                }
            }
        }
    }
}

} // verus!
