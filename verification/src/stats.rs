//! The application-state types the store persists, and the small
//! date/statistics helpers built on them.
//!
//! Calendar arithmetic goes through chrono behind trusted wrappers; the
//! date-string handling and all counting and summing around those calls is
//! verified.

use vstd::prelude::*;
use chrono::TimeZone;
use vstd::string::StringSliceAdditionalSpecFns;
use crate::wire::{digits_end, digits_val, is_digit};

verus! {

/// One todo entry.
pub struct TodoItem {
    pub id: u64,
    pub text: String,
    pub completed: bool,
    pub created_at: i64,
    pub completed_at: Option<i64>,
}

/// The stopwatch's persisted state.
pub struct StopwatchState {
    pub elapsed_ms: u64,
    pub lap_totals_ms: Vec<u64>,
}

/// The whole application state the store's blob serializes.
pub struct AppData {
    pub v: u32,
    pub tasks: Vec<TodoItem>,
    pub stopwatch: Option<StopwatchState>,
}

impl Default for AppData {
    /// The first-run state: current version, no tasks, no stopwatch.
    fn default() -> (r: Self)
        ensures
            r.v == 1,
            r.tasks@.len() == 0,
            r.stopwatch is None,
    {
        AppData { v: 1, tasks: Vec::new(), stopwatch: None }
    }
}

/// One day's numbers.
pub struct DailyStats {
    pub date: String,
    pub tasks_completed: u32,
    pub tasks_created: u32,
    pub focus_time_ms: u64,
    pub lap_count: u32,
    pub avg_lap_time_ms: Option<u64>,
}

// --- Clocks. ---

/// Relies on `std::time::SystemTime::now`: milliseconds since the Unix
/// epoch, or 0 when the clock reads earlier than it. Nothing is assumed of
/// the value.
#[verifier::external_body]
fn clock_millis() -> u64 {
    std::time::SystemTime::now()
        .duration_since(std::time::UNIX_EPOCH)
        .unwrap_or_default()
        .as_millis() as u64
}

/// Relies on `std::time::SystemTime::now`: whole seconds since the Unix
/// epoch, or 0 when the clock reads earlier than it. Nothing is assumed of
/// the value.
#[verifier::external_body]
fn clock_secs() -> i64 {
    std::time::SystemTime::now()
        .duration_since(std::time::UNIX_EPOCH)
        .unwrap_or_default()
        .as_secs() as i64
}

/// The current wall-clock time in milliseconds since the Unix epoch.
pub fn now_millis() -> u64 {
    clock_millis()
}

/// The current wall-clock time in seconds since the Unix epoch.
pub fn now_secs() -> i64 {
    clock_secs()
}

// --- Calendar arithmetic, through chrono. ---

/// The Unix timestamp of midnight (UTC) on the civil date `y-m-d`.
pub uninterp spec fn epoch_of_ymd(y: int, m: int, d: int) -> int;

/// The `%Y-%m-%d` rendering of the UTC day that holds the timestamp `ts`.
pub uninterp spec fn date_str_of(ts: int) -> Seq<char>;

/// A Gregorian leap year.
pub open spec fn is_leap_year(y: int) -> bool {
    (y % 4 == 0 && y % 100 != 0) || y % 400 == 0
}

/// Days in month `m` of year `y`.
pub open spec fn days_in_month(y: int, m: int) -> int {
    if m == 2 {
        if is_leap_year(y) {
            29
        } else {
            28
        }
    } else if m == 4 || m == 6 || m == 9 || m == 11 {
        30
    } else {
        31
    }
}

/// A civil date in the range this module promises chrono accepts.
pub open spec fn valid_ymd(y: int, m: int, d: int) -> bool {
    1 <= y <= 9999 && 1 <= m <= 12 && 1 <= d <= days_in_month(y, m)
}

/// Relies on `chrono::NaiveDate::from_ymd_opt`, `and_hms_opt` and
/// `DateTime::timestamp`: the timestamp of a date's midnight depends on
/// the date alone, and chrono accepts every real calendar date of the
/// years 1 through 9999. The midnights of those years lie between the
/// epochs of 0001-01-01 (about -62.14e9) and 9999-12-31 (about 253.4e9),
/// so their timestamps fall inside the stated bounds.
#[verifier::external_body]
fn ymd_to_epoch(y: i32, m: u32, d: u32) -> (r: Option<i64>)
    ensures
        r is Some ==> r->0 == epoch_of_ymd(y as int, m as int, d as int),
        (r is Some && 1 <= y <= 9999) ==> -62_200_000_000 <= r->0 <= 253_500_000_000,
        valid_ymd(y as int, m as int, d as int) ==> r is Some,
{
    chrono::NaiveDate::from_ymd_opt(y, m, d)
        .and_then(|date| date.and_hms_opt(0, 0, 0))
        .map(|dt| dt.and_utc().timestamp())
}

/// Relies on `chrono::TimeZone::timestamp_opt` for `Utc` and
/// `format("%Y-%m-%d")`: the rendering depends on the timestamp alone,
/// and every timestamp within three hundred billion seconds of the epoch
/// (roughly the years -7500 to 11500, far inside chrono's ±262143-year
/// range) maps to a date.
#[verifier::external_body]
fn epoch_to_date_string(ts: i64) -> (r: Option<String>)
    ensures
        r is Some ==> r->0@ == date_str_of(ts as int),
        -300_000_000_000 <= ts <= 300_000_000_000 ==> r is Some,
{
    chrono::Utc.timestamp_opt(ts, 0).single().map(|dt| dt.format("%Y-%m-%d").to_string())
}

// --- Date strings. ---

/// The first position at or after `i` holding a dash, or the end.
pub open spec fn dash_end(s: Seq<u8>, i: int) -> int
    decreases s.len() - i,
{
    if 0 <= i && i < s.len() && s[i] != 45 {
        dash_end(s, i + 1)
    } else {
        i
    }
}

/// A nonempty all-digit field whose value is `v`.
pub open spec fn field_is(s: Seq<u8>, v: nat) -> bool {
    s.len() > 0 && digits_end(s, 0) == s.len() && digits_val(s, 0, s.len() as int) == v
        && v <= u32::MAX
}

/// A field's value, or the default when the field is not a plain number
/// that fits a `u32`.
pub open spec fn field_val_or(s: Seq<u8>, dflt: nat) -> nat {
    if exists|v: nat| field_is(s, v) {
        choose|v: nat| field_is(s, v)
    } else {
        dflt
    }
}

/// What `date_to_timestamp` returns for the bytes of a date string. A
/// string of exactly three dash-separated fields names a date: numeric
/// fields give year, month and day, and a field that is no plain number
/// falls back to 1970, 1 and 1 respectively. The result is that date's
/// midnight timestamp when the date is valid, and 0 for an invalid date
/// or any other shape. Dates outside the years 1 through 9999 count as
/// invalid here — a deliberate narrowing that keeps every timestamp this
/// module produces inside a compact range.
pub open spec fn date_ts_spec(s: Seq<u8>) -> int {
    let i = dash_end(s, 0);
    let j = dash_end(s, i + 1);
    if i < s.len() && j < s.len() && dash_end(s, j + 1) == s.len() {
        let y = field_val_or(s.subrange(0, i), 1970);
        let m = field_val_or(s.subrange(i + 1, j), 1);
        let d = field_val_or(s.subrange(j + 1, s.len() as int), 1);
        if valid_ymd(y as int, m as int, d as int) {
            epoch_of_ymd(y as int, m as int, d as int)
        } else {
            0
        }
    } else {
        0
    }
}

/// `field_val_or` follows the parse result exactly.
proof fn lemma_field_val_or(s: Seq<u8>, r: Option<u32>, dflt: nat)
    requires
        r matches Some(v) ==> field_is(s, v as nat),
        r is None ==> forall|v: nat| !field_is(s, v),
    ensures
        r matches Some(v) ==> field_val_or(s, dflt) == v as nat,
        r is None ==> field_val_or(s, dflt) == dflt,
{
    if r is Some {
        let w = choose|w: nat| field_is(s, w);
        assert(field_is(s, r->0 as nat));
        assert(w == r->0 as nat);
    }
}

/// Find the next dash.
fn scan_dash(s: &[u8], i: usize) -> (j: usize)
    requires
        i <= s@.len(),
    ensures
        i <= j <= s@.len(),
        j == dash_end(s@, i as int),
{
    let mut k = i;
    while k < s.len() && s[k] != 45
        invariant
            i <= k <= s@.len(),
            dash_end(s@, i as int) == dash_end(s@, k as int),
        decreases s@.len() - k,
    {
        proof {
            assert(dash_end(s@, k as int) == dash_end(s@, k as int + 1));
        }
        k = k + 1;
    }
    k
}

/// Parse a nonempty all-digit field into its value, if it fits a `u32`.
fn parse_field(s: &[u8], from: usize, to: usize) -> (r: Option<u32>)
    requires
        from <= to <= s@.len(),
    ensures
        r matches Some(v) ==> field_is(s@.subrange(from as int, to as int), v as nat),
        r is None ==> forall|v: nat| !field_is(s@.subrange(from as int, to as int), v),
{
    let ghost f = s@.subrange(from as int, to as int);
    if from == to {
        return None;
    }
    let mut k = from;
    let mut val: u64 = 0;
    while k < to && 48 <= s[k] && s[k] <= 57 && val <= u32::MAX as u64
        invariant
            from <= k <= to <= s@.len(),
            f == s@.subrange(from as int, to as int),
            forall|t: int| 0 <= t < k - from ==> is_digit(#[trigger] f[t]),
            digits_val(f, 0, k - from) == val as nat,
            val <= u32::MAX as u64 * 10 + 9,
        decreases to - k,
    {
        proof {
            assert(f[k - from] == s@[k as int]);
            assert(digits_end(f, k - from) == digits_end(f, k - from + 1));
            assert(digits_val(f, 0, k - from + 1) == digits_val(f, 0, k - from) * 10 + (f[k
                - from] - 48) as nat);
        }
        val = val * 10 + ((s[k] - 48) as u64);
        k = k + 1;
    }
    if k == to && val <= u32::MAX as u64 {
        proof {
            assert(digits_end(f, f.len() as int) == f.len() as int);
            assert(digits_end(f, 0) == f.len() as int) by {
                assert(forall|t: int|
                    0 <= t < f.len() ==> is_digit(#[trigger] f[t]));
                lemma_digits_end_all(f, 0);
            }
            assert(field_is(f, val as nat));
        }
        Some(val as u32)
    } else {
        proof {
            if k < to && !(48 <= s@[k as int] <= 57) {
                assert(!is_digit(f[k - from]));
                assert(digits_end(f, 0) <= k - from) by {
                    lemma_digits_end_stops(f, 0, k - from);
                }
                assert forall|v: nat| !field_is(f, v) by {}
            } else {
                // overflow: the digit prefix already exceeds u32::MAX
                assert forall|v: nat| !field_is(f, v) by {
                    if field_is(f, v) {
                        lemma_digits_end_all_digits(f, 0);
                        lemma_digits_val_prefix_le(f, 0, k - from, f.len() as int);
                    }
                }
            }
        }
        None
    }
}

/// A digit scan that reached the end saw only digits.
proof fn lemma_digits_end_all_digits(s: Seq<u8>, i: int)
    requires
        0 <= i <= s.len(),
        digits_end(s, i) == s.len(),
    ensures
        forall|t: int| i <= t < s.len() ==> is_digit(#[trigger] s[t]),
    decreases s.len() - i,
{
    if i < s.len() {
        if is_digit(s[i]) {
            lemma_digits_end_all_digits(s, i + 1);
        }
    }
}

/// A scan over digits runs to the end when every byte is a digit.
proof fn lemma_digits_end_all(s: Seq<u8>, i: int)
    requires
        0 <= i <= s.len(),
        forall|t: int| i <= t < s.len() ==> is_digit(#[trigger] s[t]),
    ensures
        digits_end(s, i) == s.len(),
    decreases s.len() - i,
{
    if i < s.len() {
        lemma_digits_end_all(s, i + 1);
    }
}

/// A scan over digits never passes a non-digit.
proof fn lemma_digits_end_stops(s: Seq<u8>, i: int, j: int)
    requires
        0 <= i <= j < s.len(),
        !is_digit(s[j]),
    ensures
        digits_end(s, i) <= j,
    decreases j - i,
{
    if i < j {
        if is_digit(s[i]) {
            lemma_digits_end_stops(s, i + 1, j);
        }
    }
}

/// The value of a digit run only grows as the run extends.
proof fn lemma_digits_val_prefix_le(s: Seq<u8>, i: int, j: int, l: int)
    requires
        0 <= i <= j <= l <= s.len(),
        forall|t: int| i <= t < l ==> is_digit(#[trigger] s[t]),
    ensures
        digits_val(s, i, j) <= digits_val(s, i, l),
    decreases l - j,
{
    if j < l {
        lemma_digits_val_prefix_le(s, i, j, l - 1);
        assert(digits_val(s, i, l) == digits_val(s, i, l - 1) * 10 + (s[l - 1] - 48) as nat);
        assert(digits_val(s, i, l - 1) * 10 >= digits_val(s, i, l - 1)) by (nonlinear_arith);
    }
}

/// The midnight timestamp of a `YYYY-MM-DD` date string, with the
/// original store's lenient field handling: a field that is no plain
/// number falls back to 1970, 1 or 1, and anything that is not three
/// dash-separated fields forming a valid date of the years 1 through
/// 9999 yields 0. Never panics, and the result always stays far enough
/// inside [`timestamp_to_date`]'s accepted range that whole weeks of day
/// arithmetic fit.
pub fn date_to_timestamp(date_str: &str) -> (r: i64)
    ensures
        r == date_ts_spec(date_str.spec_bytes()),
        -62_200_000_000 <= r <= 253_500_000_000,
{
    let s = date_str.as_bytes();
    let i = scan_dash(s, 0);
    if i >= s.len() {
        return 0;
    }
    let j = scan_dash(s, i + 1);
    if j >= s.len() {
        return 0;
    }
    if scan_dash(s, j + 1) != s.len() {
        return 0;
    }
    let ry = parse_field(s, 0, i);
    let rm = parse_field(s, i + 1, j);
    let rd = parse_field(s, j + 1, s.len());
    proof {
        lemma_field_val_or(s@.subrange(0, i as int), ry, 1970);
        lemma_field_val_or(s@.subrange(i as int + 1, j as int), rm, 1);
        lemma_field_val_or(s@.subrange(j as int + 1, s@.len() as int), rd, 1);
    }
    let y: u32 = match ry {
        Some(v) => v,
        None => 1970,
    };
    let m: u32 = match rm {
        Some(v) => v,
        None => 1,
    };
    let d: u32 = match rd {
        Some(v) => v,
        None => 1,
    };
    if !(1 <= y && y <= 9999 && 1 <= m && m <= 12 && 1 <= d && d <= 31) {
        return 0;
    }
    if d > days_in_month_exec(y as i32, m) {
        return 0;
    }
    match ymd_to_epoch(y as i32, m, d) {
        Some(t) => t,
        None => {
            proof {
                assert(false);
            }
            0
        },
    }
}

/// Days in the month, executable twin of [`days_in_month`].
fn days_in_month_exec(y: i32, m: u32) -> (r: u32)
    requires
        1 <= m <= 12,
    ensures
        r == days_in_month(y as int, m as int),
{
    if m == 2 {
        if (y % 4 == 0 && y % 100 != 0) || y % 400 == 0 {
            29
        } else {
            28
        }
    } else if m == 4 || m == 6 || m == 9 || m == 11 {
        30
    } else {
        31
    }
}

/// The `%Y-%m-%d` rendering of the UTC day holding `ts`.
pub fn timestamp_to_date(ts: i64) -> (r: String)
    requires
        -300_000_000_000 <= ts <= 300_000_000_000,
    ensures
        r@ == date_str_of(ts as int),
{
    match epoch_to_date_string(ts) {
        Some(s) => s,
        None => {
            proof {
                assert(false);
            }
            String::new()
        },
    }
}

/// Every `%Y-%m-%d` day string from `start_date` to `end_date` inclusive,
/// stepping one day (86400 seconds) at a time from the start's midnight
/// timestamp. Empty when the end lies before the start.
pub fn get_date_range(start_date: &str, end_date: &str) -> (r: Vec<String>)
    ensures
        ({
            let start_ts = date_ts_spec(start_date.spec_bytes());
            let end_ts = date_ts_spec(end_date.spec_bytes());
            &&& (r@.len() > 0 <==> start_ts <= end_ts)
            &&& forall|i: int|
                0 <= i < r@.len() ==> r@[i]@ == date_str_of(start_ts + 86400 * i)
            &&& (r@.len() > 0 ==> start_ts + 86400 * (r@.len() - 1) <= end_ts < start_ts + 86400
                * r@.len())
        }),
{
    let start_ts = date_to_timestamp(start_date);
    let end_ts = date_to_timestamp(end_date);
    let mut dates: Vec<String> = Vec::new();
    let mut current = start_ts;
    while current <= end_ts
        invariant
            -62_200_000_000 <= start_ts <= 253_500_000_000,
            -62_200_000_000 <= end_ts <= 253_500_000_000,
            start_ts <= current,
            current == start_ts + 86400 * dates@.len(),
            dates@.len() > 0 ==> start_ts + 86400 * (dates@.len() - 1) <= end_ts,
            forall|i: int|
                0 <= i < dates@.len() ==> dates@[i]@ == date_str_of(start_ts + 86400 * i),
        decreases end_ts + 86400 - current,
    {
        dates.push(timestamp_to_date(current));
        current = current + 86400;
    }
    dates
}

// --- Counting and summing. ---

/// The task was completed within `[start, end)`.
pub open spec fn completed_in(t: TodoItem, start: int, end: int) -> bool {
    t.completed && match t.completed_at {
        Some(ts) => start <= ts < end,
        None => false,
    }
}

/// The task was created within `[start, end)`.
pub open spec fn created_in(t: TodoItem, start: int, end: int) -> bool {
    start <= t.created_at < end
}

/// How many tasks were completed within `[start, end)`.
pub open spec fn count_completed(s: Seq<TodoItem>, start: int, end: int) -> nat
    decreases s.len(),
{
    if s.len() == 0 {
        0
    } else {
        count_completed(s.drop_last(), start, end) + if completed_in(s.last(), start, end) {
            1nat
        } else {
            0nat
        }
    }
}

/// How many tasks were created within `[start, end)`.
pub open spec fn count_created(s: Seq<TodoItem>, start: int, end: int) -> nat
    decreases s.len(),
{
    if s.len() == 0 {
        0
    } else {
        count_created(s.drop_last(), start, end) + if created_in(s.last(), start, end) {
            1nat
        } else {
            0nat
        }
    }
}

/// The sum of all lap totals.
pub open spec fn sum_laps(s: Seq<u64>) -> int
    decreases s.len(),
{
    if s.len() == 0 {
        0
    } else {
        sum_laps(s.drop_last()) + s.last()
    }
}

/// Lap sums are never negative.
proof fn lemma_sum_nonneg(s: Seq<u64>)
    ensures
        sum_laps(s) >= 0,
    decreases s.len(),
{
    if s.len() > 0 {
        lemma_sum_nonneg(s.drop_last());
    }
}

/// Lap sums grow along prefixes.
proof fn lemma_sum_prefix(s: Seq<u64>, l: int)
    requires
        0 <= l <= s.len(),
    ensures
        0 <= sum_laps(s.subrange(0, l)),
        sum_laps(s.subrange(0, l)) <= sum_laps(s),
    decreases s.len() - l,
{
    lemma_sum_nonneg(s.subrange(0, l));
    if l == s.len() {
        assert(s.subrange(0, l) =~= s);
    } else {
        lemma_sum_prefix(s, l + 1);
        assert(s.subrange(0, l + 1).drop_last() =~= s.subrange(0, l));
        assert(sum_laps(s.subrange(0, l + 1)) == sum_laps(s.subrange(0, l)) + s.subrange(
            0,
            l + 1,
        ).last());
    }
}

/// A count never exceeds the number of tasks.
proof fn lemma_count_bounds(s: Seq<TodoItem>, start: int, end: int)
    ensures
        count_completed(s, start, end) <= s.len(),
        count_created(s, start, end) <= s.len(),
    decreases s.len(),
{
    if s.len() > 0 {
        lemma_count_bounds(s.drop_last(), start, end);
    }
}

/// One day's statistics: tasks completed and created on that day, and the
/// stopwatch's current focus time, lap count and mean lap time.
pub fn compute_daily_stats(data: &AppData, date: &str) -> (r: DailyStats)
    requires
        data.tasks@.len() <= u32::MAX,
        data.stopwatch matches Some(sw) ==> sw.lap_totals_ms@.len() <= u32::MAX && sum_laps(
            sw.lap_totals_ms@,
        ) <= u64::MAX,
    ensures
        ({
            let start = date_ts_spec(date.spec_bytes());
            let end = start + 86400;
            &&& r.date@ == date@
            &&& r.tasks_completed == count_completed(data.tasks@, start, end)
            &&& r.tasks_created == count_created(data.tasks@, start, end)
            &&& (data.stopwatch matches Some(sw) ==> {
                &&& r.focus_time_ms == sw.elapsed_ms
                &&& r.lap_count == sw.lap_totals_ms@.len()
                &&& (sw.lap_totals_ms@.len() == 0 ==> r.avg_lap_time_ms is None)
                &&& (sw.lap_totals_ms@.len() > 0 ==> r.avg_lap_time_ms == Some(
                    (sum_laps(sw.lap_totals_ms@) / (sw.lap_totals_ms@.len() as int)) as u64,
                ))
            })
            &&& (data.stopwatch is None ==> r.focus_time_ms == 0 && r.lap_count == 0
                && r.avg_lap_time_ms is None)
        }),
{
    let start_ts = date_to_timestamp(date);
    let end_ts = start_ts + 86400;

    let mut completed: u32 = 0;
    let mut created: u32 = 0;
    let mut idx: usize = 0;
    while idx < data.tasks.len()
        invariant
            idx <= data.tasks@.len() <= u32::MAX,
            completed == count_completed(data.tasks@.subrange(0, idx as int), start_ts as int,
                end_ts as int),
            created == count_created(data.tasks@.subrange(0, idx as int), start_ts as int,
                end_ts as int),
        decreases data.tasks@.len() - idx,
    {
        let ghost start = start_ts as int;
        let ghost end = end_ts as int;
        proof {
            lemma_count_bounds(data.tasks@.subrange(0, idx as int), start, end);
            assert(data.tasks@.subrange(0, idx as int + 1).drop_last() =~= data.tasks@.subrange(
                0,
                idx as int,
            ));
            assert(data.tasks@.subrange(0, idx as int + 1).last() == data.tasks@[idx as int]);
        }
        let t = &data.tasks[idx];
        let within = match t.completed_at {
            Some(ts) => start_ts <= ts && ts < end_ts,
            None => false,
        };
        let is_completed = t.completed && within;
        if is_completed {
            completed = completed + 1;
        }
        if start_ts <= t.created_at && t.created_at < end_ts {
            created = created + 1;
        }
        proof {
            assert(count_completed(data.tasks@.subrange(0, idx as int + 1), start, end)
                == count_completed(data.tasks@.subrange(0, idx as int), start, end) + (
            if completed_in(data.tasks@[idx as int], start, end) {
                1nat
            } else {
                0nat
            }));
            assert(count_created(data.tasks@.subrange(0, idx as int + 1), start, end)
                == count_created(data.tasks@.subrange(0, idx as int), start, end) + (
            if created_in(data.tasks@[idx as int], start, end) {
                1nat
            } else {
                0nat
            }));
        }
        idx = idx + 1;
    }
    proof {
        assert(data.tasks@.subrange(0, data.tasks@.len() as int) =~= data.tasks@);
    }

    let mut focus_time_ms: u64 = 0;
    let mut lap_count: u32 = 0;
    let mut avg_lap_time_ms: Option<u64> = None;
    match &data.stopwatch {
        Some(sw) => {
            focus_time_ms = sw.elapsed_ms;
            lap_count = sw.lap_totals_ms.len() as u32;
            if sw.lap_totals_ms.len() > 0 {
                let mut sum: u64 = 0;
                let mut li: usize = 0;
                while li < sw.lap_totals_ms.len()
                    invariant
                        li <= sw.lap_totals_ms@.len(),
                        sum == sum_laps(sw.lap_totals_ms@.subrange(0, li as int)),
                        sum_laps(sw.lap_totals_ms@) <= u64::MAX,
                    decreases sw.lap_totals_ms@.len() - li,
                {
                    proof {
                        assert(sw.lap_totals_ms@.subrange(0, li as int + 1).drop_last()
                            =~= sw.lap_totals_ms@.subrange(0, li as int));
                        assert(sw.lap_totals_ms@.subrange(0, li as int + 1).last()
                            == sw.lap_totals_ms@[li as int]);
                        lemma_sum_prefix(sw.lap_totals_ms@, li as int + 1);
                        lemma_sum_prefix(sw.lap_totals_ms@, li as int);
                    }
                    sum = sum + sw.lap_totals_ms[li];
                    li = li + 1;
                }
                proof {
                    assert(sw.lap_totals_ms@.subrange(0, sw.lap_totals_ms@.len() as int)
                        =~= sw.lap_totals_ms@);
                }
                avg_lap_time_ms = Some(sum / (lap_count as u64));
            }
        },
        None => {},
    }

    DailyStats {
        date: date.to_owned(),
        tasks_completed: completed,
        tasks_created: created,
        focus_time_ms,
        lap_count,
        avg_lap_time_ms,
    }
}

} // verus!
