//! Drive temperature probes: choosing a method per drive, and reading the
//! answers of the temperature daemon and of the SMART query tool.
use vstd::prelude::*;
use crate::parse::{
    all_digits, digit_run_end, digits_in, digits_value, is_digit, pieces, slice_is,
    split_bounds, trim_start, trimmed_start,
};

verus! {

/// The ways of reading a drive's temperature, in order of preference.
#[derive(Clone, Copy, Debug, PartialEq, Eq, Structural)]
pub enum ProbeMethod {
    /// The drive's own sensor, exposed as a hardware monitor attribute.
    HwmonAttribute,
    /// A query to the local temperature daemon.
    DaemonSocket,
    /// The SMART query tool's temperature report.
    SmartQuery,
}

impl ProbeMethod {
    pub open spec fn supports_sleeping_spec(&self) -> bool {
        *self == ProbeMethod::HwmonAttribute
    }

    /// Whether the method reads a spun down drive without waking it.
    pub fn supports_sleeping_probe(&self) -> (r: bool)
        ensures
            r == self.supports_sleeping_spec(),
    {
        matches!(self, ProbeMethod::HwmonAttribute)
    }
}

/// The first usable method, in order of preference.
pub fn select_probe(hwmon_usable: bool, daemon_usable: bool, smart_usable: bool) -> (r: Option<ProbeMethod>)
    ensures
        r == if hwmon_usable {
            Some(ProbeMethod::HwmonAttribute)
        } else if daemon_usable {
            Some(ProbeMethod::DaemonSocket)
        } else if smart_usable {
            Some(ProbeMethod::SmartQuery)
        } else {
            None
        },
{
    if hwmon_usable {
        Some(ProbeMethod::HwmonAttribute)
    } else if daemon_usable {
        Some(ProbeMethod::DaemonSocket)
    } else if smart_usable {
        Some(ProbeMethod::SmartQuery)
    } else {
        None
    }
}

/// Why a probe gave no temperature.
#[derive(Clone, Copy, Debug, PartialEq, Eq, Structural)]
pub enum ProbeError {
    /// The answer does not mention the drive.
    UnknownDrive,
    /// The daemon reports the drive as asleep.
    DriveSleeping,
    /// The answer holds no temperature in degrees Celsius.
    Malformed,
}

/// Highest temperature a probe is believed, in degrees Celsius.
pub const MAX_PROBED_CELSIUS: u64 = 1_000_000;

/// A temperature field in whole degrees, as millidegrees.
pub open spec fn celsius_field(t: Seq<u8>) -> Option<int> {
    if t.len() > 0 && all_digits(t) && digits_value(t) <= MAX_PROBED_CELSIUS {
        Some(digits_value(t) * 1000)
    } else {
        None
    }
}

pub open spec fn word_sleeping_daemon() -> Seq<u8> {
    seq![83u8, 76, 80]
}

pub open spec fn word_celsius_unit() -> Seq<u8> {
    seq![67u8]
}

/// The daemon answers `|device|model|temperature|unit|` for each drive, the
/// records one after the other. The index of the first record for `drive`.
pub open spec fn find_record(f: Seq<Seq<u8>>, drive: Seq<u8>, k: nat) -> Option<nat>
    decreases f.len() - 5 * k,
{
    if 5 * k + 4 >= f.len() {
        None
    } else if f[(5 * k + 1) as int] == drive {
        Some(k)
    } else {
        find_record(f, drive, k + 1)
    }
}

/// The temperature the daemon's answer gives for `drive`, in millidegrees.
pub open spec fn daemon_reading(response: Seq<u8>, drive: Seq<u8>) -> Result<int, ProbeError> {
    let f = pieces(response, 0x7c);
    match find_record(f, drive, 0) {
        None => Err(ProbeError::UnknownDrive),
        Some(k) => {
            let t = f[(5 * k + 3) as int];
            if t == word_sleeping_daemon() {
                Err(ProbeError::DriveSleeping)
            } else if f[(5 * k + 4) as int] == word_celsius_unit() && celsius_field(t).is_some() {
                Ok(celsius_field(t).unwrap())
            } else {
                Err(ProbeError::Malformed)
            }
        },
    }
}

/// Reads a whole-degree field `s[b..e]` as millidegrees.
fn celsius_in(s: &[u8], b: usize, e: usize) -> (r: Option<i64>)
    requires
        b <= e <= s@.len(),
    ensures
        r.is_some() == celsius_field(s@.subrange(b as int, e as int)).is_some(),
        r matches Some(v) ==> celsius_field(s@.subrange(b as int, e as int)) == Some(v as int),
{
    if b == e {
        return None;
    }
    match digits_in(s, b, e) {
        Some(v) => if v <= MAX_PROBED_CELSIUS {
            Some(v as i64 * 1000)
        } else {
            None
        },
        None => None,
    }
}

/// The temperature of `drive` in the temperature daemon's answer.
pub fn daemon_temp(response: &[u8], drive: &[u8]) -> (r: Result<i64, ProbeError>)
    ensures
        match r {
            Ok(v) => daemon_reading(response@, drive@) == Ok::<int, ProbeError>(v as int),
            Err(e) => daemon_reading(response@, drive@) == Err::<int, ProbeError>(e),
        },
{
    let fields = split_bounds(response, 0x7c);
    let ghost f = pieces(response@, 0x7c);
    let n = fields.len();
    let mut k: usize = 0;
    while k < n / 5
        invariant
            n == fields@.len() == f.len(),
            f == pieces(response@, 0x7c),
            k <= n / 5,
            find_record(f, drive@, 0) == find_record(f, drive@, k as nat),
            forall|j: int|
                0 <= j < fields@.len() ==> {
                    &&& (#[trigger] fields@[j]).0 <= fields@[j].1 <= response@.len()
                    &&& response@.subrange(fields@[j].0 as int, fields@[j].1 as int) == f[j]
                },
        decreases n / 5 - k,
    {
        let (db, de) = fields[5 * k + 1];
        if slice_is(response, db, de, drive) {
            let (tb, te) = fields[5 * k + 3];
            let (ub, ue) = fields[5 * k + 4];
            let sleeping: [u8; 3] = [83u8, 76, 80];
            let celsius: [u8; 1] = [67u8];
            proof {
                assert(sleeping@ =~= word_sleeping_daemon());
                assert(celsius@ =~= word_celsius_unit());
            }
            if slice_is(response, tb, te, sleeping.as_slice()) {
                return Err(ProbeError::DriveSleeping);
            }
            if !slice_is(response, ub, ue, celsius.as_slice()) {
                return Err(ProbeError::Malformed);
            }
            return match celsius_in(response, tb, te) {
                Some(v) => Ok(v),
                None => Err(ProbeError::Malformed),
            };
        }
        k = k + 1;
    }
    Err(ProbeError::UnknownDrive)
}

/// `Current Temperature:`, the label of the SMART tool's temperature line.
pub open spec fn temperature_label() -> Seq<u8> {
    seq![67u8, 117, 114, 114, 101, 110, 116, 32, 84, 101, 109, 112, 101, 114, 97, 116, 117, 114, 101, 58]
}

/// Index of the first line that starts with the temperature label.
pub open spec fn find_labelled(lines: Seq<Seq<u8>>, i: nat) -> Option<nat>
    decreases lines.len() - i,
{
    if i >= lines.len() {
        None
    } else if lines[i as int].len() >= 20 && lines[i as int].subrange(0, 20) == temperature_label() {
        Some(i)
    } else {
        find_labelled(lines, i + 1)
    }
}

/// Length of the run of digits that `s` starts with.
pub open spec fn digit_run(s: Seq<u8>) -> nat
    decreases s.len(),
{
    if s.len() > 0 && is_digit(s[0]) {
        1 + digit_run(s.drop_first())
    } else {
        0
    }
}

proof fn lemma_digit_run(s: Seq<u8>, j: int)
    requires
        0 <= j <= s.len(),
        all_digits(s.subrange(0, j)),
        j == s.len() || !is_digit(s[j]),
    ensures
        digit_run(s) == j,
    decreases j,
{
    if j > 0 {
        assert(is_digit(s.subrange(0, j)[0]));
        let t = s.drop_first();
        assert forall|i: int| 0 <= i < j - 1 implies is_digit(#[trigger] t.subrange(0, j - 1)[i]) by {
            assert(t.subrange(0, j - 1)[i] == s.subrange(0, j)[i + 1]);
        }
        if j < s.len() {
            assert(t[j - 1] == s[j]);
        }
        lemma_digit_run(t, j - 1);
    }
}

/// The temperature in the SMART tool's report: the number that follows the
/// label on the first labelled line, in millidegrees.
pub open spec fn smart_reading(report: Seq<u8>) -> Result<int, ProbeError> {
    let lines = pieces(report, 0x0a);
    match find_labelled(lines, 0) {
        None => Err(ProbeError::UnknownDrive),
        Some(i) => {
            let rest = trim_start(lines[i as int].subrange(20, lines[i as int].len() as int));
            let t = rest.subrange(0, digit_run(rest) as int);
            match celsius_field(t) {
                Some(v) => Ok(v),
                None => Err(ProbeError::Malformed),
            }
        },
    }
}

/// The temperature in the SMART tool's report, such as
/// `Current Temperature:                    33 Celsius`.
pub fn smart_temp(report: &[u8]) -> (r: Result<i64, ProbeError>)
    ensures
        match r {
            Ok(v) => smart_reading(report@) == Ok::<int, ProbeError>(v as int),
            Err(e) => smart_reading(report@) == Err::<int, ProbeError>(e),
        },
{
    let lines = split_bounds(report, 0x0a);
    let ghost l = pieces(report@, 0x0a);
    let label: [u8; 20] = [67u8, 117, 114, 114, 101, 110, 116, 32, 84, 101, 109, 112, 101, 114, 97, 116, 117, 114, 101, 58];
    proof {
        assert(label@ =~= temperature_label());
    }
    let mut i: usize = 0;
    while i < lines.len()
        invariant
            lines@.len() == l.len(),
            l == pieces(report@, 0x0a),
            i <= lines@.len(),
            label@ == temperature_label(),
            find_labelled(l, 0) == find_labelled(l, i as nat),
            forall|j: int|
                0 <= j < lines@.len() ==> {
                    &&& (#[trigger] lines@[j]).0 <= lines@[j].1 <= report@.len()
                    &&& report@.subrange(lines@[j].0 as int, lines@[j].1 as int) == l[j]
                },
        decreases lines@.len() - i,
    {
        let (b, e) = lines[i];
        let ghost line = l[i as int];
        if e - b >= 20 {
            proof {
                assert(report@.subrange(b as int, b + 20) =~= line.subrange(0, 20));
            }
            if slice_is(report, b, b + 20, label.as_slice()) {
                let v = trimmed_start(report, b + 20, e);
                let d = digit_run_end(report, v, e);
                proof {
                    assert(report@.subrange(b + 20, e as int) =~= line.subrange(20, line.len() as int));
                    let rest = trim_start(line.subrange(20, line.len() as int));
                    assert(rest =~= report@.subrange(v as int, e as int));
                    assert(report@.subrange(v as int, d as int) =~= rest.subrange(0, d - v));
                    if d < e {
                        assert(rest[d - v] == report@[d as int]);
                    }
                    lemma_digit_run(rest, d - v);
                }
                return match celsius_in(report, v, d) {
                    Some(t) => Ok(t),
                    None => Err(ProbeError::Malformed),
                };
            }
        }
        i = i + 1;
    }
    Err(ProbeError::UnknownDrive)
}

} // verus!
