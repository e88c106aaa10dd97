//! Timestamp resolution: date strings parsed in a fixed order of layouts,
//! embedded capture time preferred over the file system's modification time,
//! and destination names derived from the resolved time.
use vstd::prelude::*;

use chrono::{Datelike, TimeZone, Timelike};

verus! {

/// A calendar date and time of day, without a time zone.
#[derive(Clone, Copy, Debug, PartialEq, Eq, Structural)]
pub struct WallClock {
    pub year: i32,
    pub month: u32,
    pub day: u32,
    pub hour: u32,
    pub minute: u32,
    pub second: u32,
    pub nanosecond: u32,
}

/// A wall-clock time in the local time zone, with that zone's offset from UTC.
#[derive(Clone, Copy, Debug, PartialEq, Eq, Structural)]
pub struct LocalTime {
    pub wall: WallClock,
    pub utc_offset_seconds: i32,
}

/// Which source a resolved timestamp came from.
#[derive(Clone, Copy, Debug, PartialEq, Eq, Structural)]
pub enum Provenance {
    FromMetadata,
    FromFilesystem,
}

/// A resolved creation time together with its source.
#[derive(Clone, Copy, Debug, PartialEq, Eq, Structural)]
pub struct ResolvedTimestamp {
    pub time: LocalTime,
    pub provenance: Provenance,
}

/// The embedded metadata of a file: three times and the camera's identity,
/// each of them independently absent.
#[derive(Clone, Debug)]
pub struct ExifDateInfo {
    pub date_time_original: Option<LocalTime>,
    pub date_time: Option<LocalTime>,
    pub date_time_digitized: Option<LocalTime>,
    pub camera_make: Option<String>,
    pub camera_model: Option<String>,
}

/// The raw text of the metadata fields, as the metadata reader shows them.
#[derive(Clone, Debug)]
pub struct ExifFields {
    pub date_time_original: Option<String>,
    pub date_time: Option<String>,
    pub date_time_digitized: Option<String>,
    pub make: Option<String>,
    pub model: Option<String>,
}

/// Why resolving a timestamp failed.
#[derive(Clone, Copy, Debug, PartialEq, Eq, Structural)]
pub enum TimestampError {
    /// The file system could not report the file's modification time.
    StatFailure,
}

/// What chrono's `NaiveDateTime::parse_from_str` returns for a string and a
/// layout.
pub uninterp spec fn naive_parse(s: Seq<char>, layout: Seq<char>) -> Option<WallClock>;

/// Relies on `chrono::NaiveDateTime::parse_from_str`: the result depends on
/// the string and the layout alone.
#[verifier::external_body]
fn parse_naive(s: &str, layout: &str) -> (r: Option<WallClock>)
    ensures
        r == naive_parse(s@, layout@),
{
    chrono::NaiveDateTime::parse_from_str(s, layout).ok().map(
        |n| WallClock {
            year: n.year(),
            month: n.month(),
            day: n.day(),
            hour: n.hour(),
            minute: n.minute(),
            second: n.second(),
            nanosecond: n.nanosecond(),
        },
    )
}

/// Relies on `chrono::Local::from_local_datetime` and `single`: the machine's
/// time zone decides whether the wall-clock time exists exactly once and with
/// which offset; a time it gives shows the wall clock it was given.
#[verifier::external_body]
fn local_from_wall(w: &WallClock) -> (r: Option<LocalTime>)
    ensures
        r is Some ==> r->0.wall == *w,
{
    let naive = chrono::NaiveDate::from_ymd_opt(w.year, w.month, w.day)?.and_hms_nano_opt(
        w.hour,
        w.minute,
        w.second,
        w.nanosecond,
    )?;
    chrono::Local.from_local_datetime(&naive).single().map(
        |dt| LocalTime { wall: *w, utc_offset_seconds: dt.offset().local_minus_utc() },
    )
}

/// The primary, colon-delimited layout.
pub open spec fn colon_layout() -> Seq<char> {
    "%Y:%m:%d %H:%M:%S"@
}

/// The dash-delimited, ISO-like layout.
pub open spec fn dash_layout() -> Seq<char> {
    "%Y-%m-%d %H:%M:%S"@
}

/// The colon-delimited layout with a fraction of a second.
pub open spec fn fraction_layout() -> Seq<char> {
    "%Y:%m:%d %H:%M:%S%.f"@
}

/// The wall clock of the first layout, in priority order, that parses `s`.
pub open spec fn first_parse(s: Seq<char>) -> Option<WallClock> {
    if naive_parse(s, colon_layout()) is Some {
        naive_parse(s, colon_layout())
    } else if naive_parse(s, dash_layout()) is Some {
        naive_parse(s, dash_layout())
    } else {
        naive_parse(s, fraction_layout())
    }
}

/// `t` is a local reading of the date string `s`: absent where no layout
/// parses it, and otherwise absent or showing the parsed wall clock.
pub open spec fn reads_as(s: Seq<char>, t: Option<LocalTime>) -> bool {
    &&& first_parse(s) is None ==> t is None
    &&& t is Some ==> first_parse(s) is Some && t->0.wall == first_parse(s)->0
}

/// Parses a metadata date string with the first matching layout, in order:
/// colon-delimited, dash-delimited, colon-delimited with a fraction of a
/// second, and reads it in the local time zone. Unparseable strings, and
/// wall-clock times that the local zone does not have exactly once, give
/// `None`.
pub fn parse_exif_date(date_str: &str) -> (r: Option<LocalTime>)
    ensures
        reads_as(date_str@, r),
{
    let colon = parse_naive(date_str, "%Y:%m:%d %H:%M:%S");
    let parsed = if colon.is_some() {
        colon
    } else {
        let dash = parse_naive(date_str, "%Y-%m-%d %H:%M:%S");
        if dash.is_some() {
            dash
        } else {
            parse_naive(date_str, "%Y:%m:%d %H:%M:%S%.f")
        }
    };
    match parsed {
        Some(w) => local_from_wall(&w),
        None => None,
    }
}

/// Parses an optional date field.
fn parse_field(field: &Option<String>) -> (r: Option<LocalTime>)
    ensures
        field_reads_as(*field, r),
{
    match field {
        Some(s) => parse_exif_date(s.as_str()),
        None => None,
    }
}

/// A date field read from its raw text: absent where the text is absent,
/// else a local reading of it.
pub open spec fn field_reads_as(raw: Option<String>, t: Option<LocalTime>) -> bool {
    match raw {
        Some(s) => reads_as(s@, t),
        None => t is None,
    }
}

/// `info` is the metadata bundle built from the raw fields.
pub open spec fn bundle_of(fields: ExifFields, info: ExifDateInfo) -> bool {
    &&& field_reads_as(fields.date_time_original, info.date_time_original)
    &&& field_reads_as(fields.date_time, info.date_time)
    &&& field_reads_as(fields.date_time_digitized, info.date_time_digitized)
    &&& info.camera_make == fields.make
    &&& info.camera_model == fields.model
}

/// Builds the metadata bundle from the raw field texts: date fields are
/// parsed (an unparseable one is absent), camera fields are kept verbatim.
pub fn exif_info_from_fields(fields: &ExifFields) -> (r: ExifDateInfo)
    ensures
        bundle_of(*fields, r),
{
    ExifDateInfo {
        date_time_original: parse_field(&fields.date_time_original),
        date_time: parse_field(&fields.date_time),
        date_time_digitized: parse_field(&fields.date_time_digitized),
        camera_make: fields.make.clone(),
        camera_model: fields.model.clone(),
    }
}

/// The capture time that metadata offers, if it was read and holds one.
pub open spec fn capture_time(info: Option<ExifDateInfo>) -> Option<LocalTime> {
    match info {
        Some(i) => i.date_time_original,
        None => None,
    }
}

/// True when the file system's modification time is needed: the metadata was
/// unreadable or holds no capture time.
pub fn needs_filesystem_time(info: &Option<ExifDateInfo>) -> (r: bool)
    ensures
        r == (capture_time(*info) is None),
{
    match info {
        Some(i) => i.date_time_original.is_none(),
        None => true,
    }
}

/// The resolution rule: the metadata's capture time where there is one,
/// else the file system's modification time, else a stat failure.
pub open spec fn resolution(
    info: Option<ExifDateInfo>,
    modified: Option<LocalTime>,
) -> Result<ResolvedTimestamp, TimestampError> {
    match capture_time(info) {
        Some(t) => Ok(ResolvedTimestamp { time: t, provenance: Provenance::FromMetadata }),
        None => match modified {
            Some(t) => Ok(ResolvedTimestamp { time: t, provenance: Provenance::FromFilesystem }),
            None => Err(TimestampError::StatFailure),
        },
    }
}

/// Resolves a file's creation time. `info` is the metadata bundle, `None`
/// where the file's metadata was unreadable; `modified` is the file system's
/// modification time, `None` where it could not be had.
pub fn resolve_timestamp(info: &Option<ExifDateInfo>, modified: Option<LocalTime>) -> (r: Result<
    ResolvedTimestamp,
    TimestampError,
>)
    ensures
        r == resolution(*info, modified),
{
    let captured = match info {
        Some(i) => i.date_time_original,
        None => None,
    };
    match captured {
        Some(t) => Ok(ResolvedTimestamp { time: t, provenance: Provenance::FromMetadata }),
        None => match modified {
            Some(t) => Ok(ResolvedTimestamp { time: t, provenance: Provenance::FromFilesystem }),
            None => Err(TimestampError::StatFailure),
        },
    }
}

/// The decimal digits of `n`, zero-padded on the left to at least `width`.
pub open spec fn decimal(n: nat, width: nat) -> Seq<char>
    decreases n + width,
{
    if n == 0 && width == 0 {
        Seq::<char>::empty()
    } else {
        decimal(n / 10, if width > 0 {
            (width - 1) as nat
        } else {
            0
        }).push("0123456789"@[(n % 10) as int])
    }
}

/// A year as seven characters whose text order is the order of the years:
/// seven digits from year 0 on, and before it `-` and six digits counting up
/// towards year 0.
pub open spec fn year_key(y: int) -> Seq<char> {
    if y >= 0 {
        decimal(y as nat, 7)
    } else if y >= -1000000 {
        "-"@ + decimal((1000000 + y) as nat, 6)
    } else {
        "-"@ + decimal(0, 6)
    }
}

/// An offset from UTC in seconds, as a sign and five digits.
pub open spec fn offset_key(o: int) -> Seq<char> {
    if o < 0 {
        "-"@ + decimal((-o) as nat, 5)
    } else {
        "+"@ + decimal(o as nat, 5)
    }
}

/// One letter for the source of a time: `m` for metadata, `f` for the file
/// system.
pub open spec fn provenance_key(p: Provenance) -> Seq<char> {
    match p {
        Provenance::FromMetadata => "m"@,
        Provenance::FromFilesystem => "f"@,
    }
}

/// The pieces of a time stamp, in order: year, month, day, `_`, hour,
/// minute, second, `_`, nanosecond, UTC offset, source.
pub open spec fn stamp_parts(t: ResolvedTimestamp) -> Seq<Seq<char>> {
    let w = t.time.wall;
    seq![
        year_key(w.year as int),
        decimal(w.month as nat, 2),
        decimal(w.day as nat, 2),
        "_"@,
        decimal(w.hour as nat, 2),
        decimal(w.minute as nat, 2),
        decimal(w.second as nat, 2),
        "_"@,
        decimal(w.nanosecond as nat, 10),
        offset_key(t.time.utc_offset_seconds as int),
        provenance_key(t.provenance),
    ]
}

/// The pieces joined in order.
pub open spec fn join_all(parts: Seq<Seq<char>>) -> Seq<char>
    decreases parts.len(),
{
    if parts.len() == 0 {
        Seq::<char>::empty()
    } else {
        join_all(parts.drop_last()) + parts.last()
    }
}

/// The time stamp of a resolved time: every field of it, at fixed widths.
pub open spec fn stamp_text(t: ResolvedTimestamp) -> Seq<char> {
    join_all(stamp_parts(t))
}

/// The destination name of a file: its time stamp, then a `.` and the
/// extension where the extension is not empty.
pub open spec fn destination_name_of(t: ResolvedTimestamp, ext: Seq<char>) -> Seq<char> {
    if ext.len() == 0 {
        stamp_text(t)
    } else {
        stamp_text(t) + "."@ + ext
    }
}

/// Appends the decimal digits of `n`, zero-padded to at least `width`.
fn push_decimal(out: &mut String, n: u64, width: u64)
    ensures
        final(out)@ == old(out)@ + decimal(n as nat, width as nat),
    decreases n + width,
{
    if n == 0 && width == 0 {
        assert(old(out)@ + Seq::<char>::empty() =~= old(out)@);
        return;
    }
    let w: u64 = if width > 0 {
        width - 1
    } else {
        0
    };
    push_decimal(out, n / 10, w);
    let d: usize = (n % 10) as usize;
    let digits = "0123456789";
    proof {
        reveal_strlit("0123456789");
    }
    let digit = digits.substring_char(d, d + 1);
    let ghost mid = out@;
    out.append(digit);
    proof {
        assert(digit@ =~= seq!["0123456789"@[d as int]]);
        assert(mid + digit@ =~= (old(out)@ + decimal((n / 10) as nat, w as nat)).push(
            "0123456789"@[d as int],
        ));
        assert(old(out)@ + decimal(n as nat, width as nat) =~= old(out)@ + decimal(
            (n / 10) as nat,
            w as nat,
        ).push("0123456789"@[d as int]));
    }
}

/// Derives the destination name of a file from its resolved time and its
/// normalized extension: every field of the time at a fixed width, so that
/// names sort by time, then the extension.
pub fn destination_name(t: &ResolvedTimestamp, extension: &str) -> (r: String)
    ensures
        r@ == destination_name_of(*t, extension@),
{
    let w = t.time.wall;
    let mut out = String::new();
    if w.year >= 0 {
        push_decimal(&mut out, w.year as u64, 7);
    } else if w.year >= -1000000 {
        out.append("-");
        push_decimal(&mut out, (1000000 + w.year) as u64, 6);
    } else {
        out.append("-");
        push_decimal(&mut out, 0, 6);
    }
    let ghost p1 = out@;
    push_decimal(&mut out, w.month as u64, 2);
    push_decimal(&mut out, w.day as u64, 2);
    out.append("_");
    push_decimal(&mut out, w.hour as u64, 2);
    push_decimal(&mut out, w.minute as u64, 2);
    push_decimal(&mut out, w.second as u64, 2);
    out.append("_");
    push_decimal(&mut out, w.nanosecond as u64, 10);
    let ghost p9 = out@;
    let o = t.time.utc_offset_seconds;
    if o < 0 {
        out.append("-");
        let neg: i64 = -(o as i64);
        push_decimal(&mut out, neg as u64, 5);
    } else {
        out.append("+");
        push_decimal(&mut out, o as u64, 5);
    }
    let ghost p10 = out@;
    match t.provenance {
        Provenance::FromMetadata => out.append("m"),
        Provenance::FromFilesystem => out.append("f"),
    }
    proof {
        assert(p1 =~= year_key(w.year as int));
        assert(p10 =~= p9 + offset_key(o as int));
        assert(out@ =~= p10 + provenance_key(t.provenance));
        reveal_with_fuel(join_all, 12);
        assert(out@ =~= stamp_text(*t));
    }
    if extension.unicode_len() > 0 {
        out.append(".");
        out.append(extension);
    }
    out
}

/// Resolves a file's creation time and derives its destination name from it
/// and the file's normalized extension.
pub fn destination_for(
    info: &Option<ExifDateInfo>,
    modified: Option<LocalTime>,
    extension: &str,
) -> (r: Result<String, TimestampError>)
    ensures
        match resolution(*info, modified) {
            Ok(t) => r is Ok && r->Ok_0@ == destination_name_of(t, extension@),
            Err(e) => r == Err::<String, TimestampError>(e),
        },
{
    match resolve_timestamp(info, modified) {
        Ok(t) => Ok(destination_name(&t, extension)),
        Err(e) => Err(e),
    }
}

/// A capture time that the metadata holds decides the resolution: it comes
/// from the metadata, showing the wall clock of the first layout that parsed
/// its text, whatever the file system reports.
pub proof fn lemma_capture_time_wins(
    fields: ExifFields,
    info: ExifDateInfo,
    modified: Option<LocalTime>,
)
    requires
        bundle_of(fields, info),
        info.date_time_original is Some,
    ensures
        fields.date_time_original is Some,
        resolution(Some(info), modified) is Ok,
        resolution(Some(info), modified)->Ok_0.provenance == Provenance::FromMetadata,
        resolution(Some(info), modified)->Ok_0.time.wall == first_parse(
            fields.date_time_original->0@,
        )->0,
{
}

/// A capture-time text that no layout parses counts as absent: resolution
/// falls through to the file system's time, and succeeds where that time is
/// known.
pub proof fn lemma_unparseable_falls_back(
    fields: ExifFields,
    info: ExifDateInfo,
    modified: Option<LocalTime>,
)
    requires
        bundle_of(fields, info),
        fields.date_time_original is Some,
        first_parse(fields.date_time_original->0@) is None,
    ensures
        resolution(Some(info), modified) == resolution(None, modified),
        modified is Some ==> resolution(Some(info), modified) == Ok::<
            ResolvedTimestamp,
            TimestampError,
        >(ResolvedTimestamp { time: modified->0, provenance: Provenance::FromFilesystem }),
{
}

/// `a` sorts before `b` as text: at the first place where they differ, `a`
/// holds the smaller character.
pub open spec fn text_before(a: Seq<char>, b: Seq<char>) -> bool {
    exists|i: int| 0 <= i < a.len() && i < b.len() && a.take(i) == b.take(i) && a[i] < b[i]
}

/// The fields of a wall clock, most significant first.
pub open spec fn wall_key(w: WallClock) -> Seq<int> {
    seq![
        w.year as int,
        w.month as int,
        w.day as int,
        w.hour as int,
        w.minute as int,
        w.second as int,
        w.nanosecond as int,
    ]
}

/// `a` is an earlier wall-clock time than `b`.
pub open spec fn wall_before(a: WallClock, b: WallClock) -> bool {
    exists|j: int|
        0 <= j < 7 && wall_key(a).take(j) == wall_key(b).take(j) && wall_key(a)[j] < wall_key(
            b,
        )[j]
}

/// The ranges that chrono's dates, times and offsets keep to.
pub open spec fn stamp_in_range(t: ResolvedTimestamp) -> bool {
    let w = t.time.wall;
    &&& -262144 <= w.year <= 262143
    &&& 1 <= w.month <= 12
    &&& 1 <= w.day <= 31
    &&& w.hour < 24
    &&& w.minute < 60
    &&& w.second < 60
    &&& w.nanosecond < 2_000_000_000
    &&& -86400 < t.time.utc_offset_seconds < 86400
}

pub open spec fn pow10(w: nat) -> nat
    decreases w,
{
    if w == 0 {
        1
    } else {
        10 * pow10((w - 1) as nat)
    }
}

proof fn lemma_digit_chars()
    ensures
        "0123456789"@ == seq!['0', '1', '2', '3', '4', '5', '6', '7', '8', '9'],
{
    reveal_strlit("0123456789");
    assert("0123456789"@ =~= seq!['0', '1', '2', '3', '4', '5', '6', '7', '8', '9']);
}

proof fn lemma_decimal_shape(n: nat, w: nat)
    requires
        n < pow10(w),
    ensures
        decimal(n, w).len() == w,
        forall|i: int| 0 <= i < w ==> '0' <= #[trigger] decimal(n, w)[i] <= '9',
    decreases w,
{
    lemma_digit_chars();
    if w > 0 {
        assert(n / 10 < pow10((w - 1) as nat)) by (nonlinear_arith)
            requires
                n < 10 * pow10((w - 1) as nat),
        ;
        lemma_decimal_shape(n / 10, (w - 1) as nat);
        let d = (n % 10) as int;
        assert(0 <= d < 10);
        assert('0' <= "0123456789"@[d] <= '9');
    }
}

proof fn lemma_before_extend(a: Seq<char>, b: Seq<char>, c: Seq<char>, d: Seq<char>)
    requires
        text_before(a, b),
    ensures
        text_before(a + c, b + d),
{
    let i = choose|i: int|
        0 <= i < a.len() && i < b.len() && a.take(i) == b.take(i) && a[i] < b[i];
    assert((a + c).take(i) =~= a.take(i));
    assert((b + d).take(i) =~= b.take(i));
    assert((a + c)[i] == a[i]);
    assert((b + d)[i] == b[i]);
}

proof fn lemma_before_after_equal(a: Seq<char>, c: Seq<char>, d: Seq<char>)
    requires
        text_before(c, d),
    ensures
        text_before(a + c, a + d),
{
    let i = choose|i: int|
        0 <= i < c.len() && i < d.len() && c.take(i) == d.take(i) && c[i] < d[i];
    let k = a.len() + i;
    assert((a + c).take(k) =~= a + c.take(i));
    assert((a + d).take(k) =~= a + d.take(i));
    assert((a + c)[k] == c[i]);
    assert((a + d)[k] == d[i]);
}

proof fn lemma_before_differs(a: Seq<char>, b: Seq<char>)
    requires
        text_before(a, b),
    ensures
        a != b,
{
    let i = choose|i: int|
        0 <= i < a.len() && i < b.len() && a.take(i) == b.take(i) && a[i] < b[i];
    assert(a[i] != b[i]);
}

proof fn lemma_decimal_before(n1: nat, n2: nat, w: nat)
    requires
        n1 < n2 < pow10(w),
    ensures
        text_before(decimal(n1, w), decimal(n2, w)),
    decreases w,
{
    lemma_digit_chars();
    let p = pow10((w - 1) as nat);
    assert(n1 / 10 <= n2 / 10 < p) by (nonlinear_arith)
        requires
            n1 < n2 < 10 * p,
    ;
    let q1 = n1 / 10;
    let q2 = n2 / 10;
    let c1 = "0123456789"@[(n1 % 10) as int];
    let c2 = "0123456789"@[(n2 % 10) as int];
    assert(decimal(n1, w) =~= decimal(q1, (w - 1) as nat) + seq![c1]);
    assert(decimal(n2, w) =~= decimal(q2, (w - 1) as nat) + seq![c2]);
    if q1 < q2 {
        lemma_decimal_before(q1, q2, (w - 1) as nat);
        lemma_before_extend(
            decimal(q1, (w - 1) as nat),
            decimal(q2, (w - 1) as nat),
            seq![c1],
            seq![c2],
        );
    } else {
        assert(n1 % 10 < n2 % 10);
        assert(c1 < c2);
        assert(text_before(seq![c1], seq![c2])) by {
            assert(seq![c1].take(0) =~= seq![c2].take(0));
        }
        lemma_before_after_equal(decimal(q1, (w - 1) as nat), seq![c1], seq![c2]);
    }
}

proof fn lemma_decimal_injective(n1: nat, n2: nat, w: nat)
    requires
        n1 < pow10(w),
        n2 < pow10(w),
        decimal(n1, w) == decimal(n2, w),
    ensures
        n1 == n2,
{
    if n1 < n2 {
        lemma_decimal_before(n1, n2, w);
        lemma_before_differs(decimal(n1, w), decimal(n2, w));
    } else if n2 < n1 {
        lemma_decimal_before(n2, n1, w);
        lemma_before_differs(decimal(n2, w), decimal(n1, w));
    }
}

proof fn lemma_pow10_values()
    ensures
        pow10(2) == 100,
        pow10(5) == 100000,
        pow10(6) == 1000000,
        pow10(7) == 10000000,
        pow10(10) == 10000000000,
{
    reveal_with_fuel(pow10, 11);
}

proof fn lemma_year_key(y1: int, y2: int)
    requires
        -262144 <= y1 < y2 <= 262143,
    ensures
        year_key(y1).len() == 7,
        year_key(y2).len() == 7,
        text_before(year_key(y1), year_key(y2)),
{
    lemma_pow10_values();
    reveal_strlit("-");
    if y1 >= 0 {
        lemma_decimal_shape(y1 as nat, 7);
        lemma_decimal_shape(y2 as nat, 7);
        lemma_decimal_before(y1 as nat, y2 as nat, 7);
    } else if y2 < 0 {
        lemma_decimal_shape((1000000 + y1) as nat, 6);
        lemma_decimal_shape((1000000 + y2) as nat, 6);
        lemma_decimal_before((1000000 + y1) as nat, (1000000 + y2) as nat, 6);
        lemma_before_after_equal(
            "-"@,
            decimal((1000000 + y1) as nat, 6),
            decimal((1000000 + y2) as nat, 6),
        );
    } else {
        lemma_decimal_shape((1000000 + y1) as nat, 6);
        lemma_decimal_shape(y2 as nat, 7);
        let a = year_key(y1);
        let b = year_key(y2);
        assert(a[0] == '-');
        assert('0' <= b[0]);
        assert(a.take(0) =~= b.take(0));
    }
}

proof fn lemma_offset_key(o1: int, o2: int)
    requires
        -86400 < o1 < 86400,
        -86400 < o2 < 86400,
    ensures
        offset_key(o1).len() == 6,
        offset_key(o1) == offset_key(o2) ==> o1 == o2,
{
    lemma_pow10_values();
    reveal_strlit("-");
    reveal_strlit("+");
    let a = offset_key(o1);
    let b = offset_key(o2);
    let n1: nat = if o1 < 0 { (-o1) as nat } else { o1 as nat };
    let n2: nat = if o2 < 0 { (-o2) as nat } else { o2 as nat };
    lemma_decimal_shape(n1, 5);
    lemma_decimal_shape(n2, 5);
    if a == b {
        assert(a[0] == b[0]);
        assert(a.drop_first() =~= decimal(n1, 5));
        assert(b.drop_first() =~= decimal(n2, 5));
        lemma_decimal_injective(n1, n2, 5);
    }
}

proof fn lemma_join_before(p1: Seq<Seq<char>>, p2: Seq<Seq<char>>, m: int)
    requires
        p1.len() == p2.len(),
        0 <= m < p1.len(),
        forall|k: int| 0 <= k < m ==> p1[k] == p2[k],
        text_before(p1[m], p2[m]),
    ensures
        text_before(join_all(p1), join_all(p2)),
    decreases p1.len(),
{
    if m == p1.len() - 1 {
        assert(p1.drop_last() =~= p2.drop_last());
        lemma_before_after_equal(join_all(p1.drop_last()), p1.last(), p2.last());
    } else {
        lemma_join_before(p1.drop_last(), p2.drop_last(), m);
        lemma_before_extend(join_all(p1.drop_last()), join_all(p2.drop_last()), p1.last(), p2.last());
    }
}

proof fn lemma_join_injective(p1: Seq<Seq<char>>, p2: Seq<Seq<char>>)
    requires
        p1.len() == p2.len(),
        forall|k: int| 0 <= k < p1.len() ==> #[trigger] p1[k].len() == p2[k].len(),
        join_all(p1) == join_all(p2),
    ensures
        forall|k: int| 0 <= k < p1.len() ==> #[trigger] p1[k] == p2[k],
    decreases p1.len(),
{
    if p1.len() > 0 {
        let j1 = join_all(p1.drop_last());
        let j2 = join_all(p2.drop_last());
        let n = p1.len() - 1;
        assert(p1[n].len() == p2[n].len());
        assert(join_all(p1) == j1 + p1.last());
        assert(join_all(p2) == j2 + p2.last());
        assert(j1.len() == j2.len());
        assert(j1 =~= join_all(p1).take(j1.len() as int));
        assert(j2 =~= join_all(p2).take(j2.len() as int));
        assert(p1.last() =~= join_all(p1).skip(j1.len() as int));
        assert(p2.last() =~= join_all(p2).skip(j2.len() as int));
        assert forall|k: int| 0 <= k < p1.drop_last().len() implies #[trigger] p1.drop_last()[k].len()
            == p2.drop_last()[k].len() by {
            assert(p1[k].len() == p2[k].len());
        }
        lemma_join_injective(p1.drop_last(), p2.drop_last());
        assert forall|k: int| 0 <= k < p1.len() implies #[trigger] p1[k] == p2[k] by {
            if k < n {
                assert(p1.drop_last()[k] == p2.drop_last()[k]);
            }
        }
    }
}

proof fn lemma_part_lengths(t: ResolvedTimestamp)
    requires
        stamp_in_range(t),
    ensures
        stamp_parts(t).len() == 11,
        stamp_parts(t)[0].len() == 7,
        stamp_parts(t)[1].len() == 2,
        stamp_parts(t)[2].len() == 2,
        stamp_parts(t)[3].len() == 1,
        stamp_parts(t)[4].len() == 2,
        stamp_parts(t)[5].len() == 2,
        stamp_parts(t)[6].len() == 2,
        stamp_parts(t)[7].len() == 1,
        stamp_parts(t)[8].len() == 10,
        stamp_parts(t)[9].len() == 6,
        stamp_parts(t)[10].len() == 1,
{
    let w = t.time.wall;
    lemma_pow10_values();
    reveal_strlit("_");
    reveal_strlit("m");
    reveal_strlit("f");
    if w.year < 262143 {
        lemma_year_key(w.year as int, 262143);
    } else {
        lemma_year_key(0, w.year as int);
    }
    lemma_decimal_shape(w.month as nat, 2);
    lemma_decimal_shape(w.day as nat, 2);
    lemma_decimal_shape(w.hour as nat, 2);
    lemma_decimal_shape(w.minute as nat, 2);
    lemma_decimal_shape(w.second as nat, 2);
    lemma_decimal_shape(w.nanosecond as nat, 10);
    lemma_offset_key(t.time.utc_offset_seconds as int, 0);
}

/// Names sort as their times do: where an in-range time's wall clock is
/// earlier than another's, its name sorts first as text, whatever the offsets
/// and sources, for any one extension.
pub proof fn lemma_names_sort_by_time(t1: ResolvedTimestamp, t2: ResolvedTimestamp, ext: Seq<char>)
    requires
        stamp_in_range(t1),
        stamp_in_range(t2),
        wall_before(t1.time.wall, t2.time.wall),
    ensures
        text_before(destination_name_of(t1, ext), destination_name_of(t2, ext)),
{
    let w1 = t1.time.wall;
    let w2 = t2.time.wall;
    let k1 = wall_key(w1);
    let k2 = wall_key(w2);
    let j = choose|j: int| 0 <= j < 7 && k1.take(j) == k2.take(j) && k1[j] < k2[j];
    assert forall|k: int| 0 <= k < j implies k1[k] == k2[k] by {
        assert(k1.take(j)[k] == k2.take(j)[k]);
    }
    let p1 = stamp_parts(t1);
    let p2 = stamp_parts(t2);
    lemma_pow10_values();
    let m: int = if j <= 2 {
        j
    } else if j <= 5 {
        j + 1
    } else {
        8
    };
    if j == 0 {
        lemma_year_key(w1.year as int, w2.year as int);
    } else if j == 1 {
        lemma_decimal_before(w1.month as nat, w2.month as nat, 2);
    } else if j == 2 {
        lemma_decimal_before(w1.day as nat, w2.day as nat, 2);
    } else if j == 3 {
        lemma_decimal_before(w1.hour as nat, w2.hour as nat, 2);
    } else if j == 4 {
        lemma_decimal_before(w1.minute as nat, w2.minute as nat, 2);
    } else if j == 5 {
        lemma_decimal_before(w1.second as nat, w2.second as nat, 2);
    } else {
        lemma_decimal_before(w1.nanosecond as nat, w2.nanosecond as nat, 10);
    }
    assert(text_before(p1[m], p2[m]));
    if j > 0 {
        assert(p1[0] == p2[0]);
    }
    if j > 1 {
        assert(p1[1] == p2[1]);
    }
    if j > 2 {
        assert(p1[2] == p2[2]);
        assert(p1[3] == p2[3]);
    }
    if j > 3 {
        assert(p1[4] == p2[4]);
    }
    if j > 4 {
        assert(p1[5] == p2[5]);
    }
    if j > 5 {
        assert(p1[6] == p2[6]);
        assert(p1[7] == p2[7]);
    }
    assert forall|k: int| 0 <= k < m implies p1[k] == p2[k] by {
        if k == 0 {
        } else if k == 1 {
        } else if k == 2 {
        } else if k == 3 {
        } else if k == 4 {
        } else if k == 5 {
        } else if k == 6 {
        } else {
        }
    }
    lemma_join_before(p1, p2, m);
    if ext.len() > 0 {
        lemma_before_extend(stamp_text(t1), stamp_text(t2), "."@ + ext, "."@ + ext);
        assert(stamp_text(t1) + "."@ + ext =~= stamp_text(t1) + ("."@ + ext));
        assert(stamp_text(t2) + "."@ + ext =~= stamp_text(t2) + ("."@ + ext));
    }
}

/// Distinct in-range times give distinct names: two names with one extension
/// are equal only where the wall clocks, offsets and sources are all equal.
pub proof fn lemma_names_unique(t1: ResolvedTimestamp, t2: ResolvedTimestamp, ext: Seq<char>)
    requires
        stamp_in_range(t1),
        stamp_in_range(t2),
        destination_name_of(t1, ext) == destination_name_of(t2, ext),
    ensures
        t1 == t2,
{
    let w1 = t1.time.wall;
    let w2 = t2.time.wall;
    let s1 = stamp_text(t1);
    let s2 = stamp_text(t2);
    if ext.len() > 0 {
        let n1 = destination_name_of(t1, ext);
        assert(n1.len() == s1.len() + 1 + ext.len()) by {
            reveal_strlit(".");
        }
        assert(s1 =~= n1.take(s1.len() as int));
        assert(s2 =~= n1.take(s2.len() as int));
    }
    assert(s1 == s2);
    let p1 = stamp_parts(t1);
    let p2 = stamp_parts(t2);
    lemma_part_lengths(t1);
    lemma_part_lengths(t2);
    assert forall|k: int| 0 <= k < p1.len() implies #[trigger] p1[k].len() == p2[k].len() by {
        if k == 0 {
        } else if k == 1 {
        } else if k == 2 {
        } else if k == 3 {
        } else if k == 4 {
        } else if k == 5 {
        } else if k == 6 {
        } else if k == 7 {
        } else if k == 8 {
        } else if k == 9 {
        } else {
        }
    }
    lemma_join_injective(p1, p2);
    assert(p1[0] == p2[0]);
    assert(p1[1] == p2[1]);
    assert(p1[2] == p2[2]);
    assert(p1[4] == p2[4]);
    assert(p1[5] == p2[5]);
    assert(p1[6] == p2[6]);
    assert(p1[8] == p2[8]);
    assert(p1[9] == p2[9]);
    assert(p1[10] == p2[10]);
    lemma_pow10_values();
    if w1.year < w2.year {
        lemma_year_key(w1.year as int, w2.year as int);
        lemma_before_differs(p1[0], p2[0]);
    } else if w2.year < w1.year {
        lemma_year_key(w2.year as int, w1.year as int);
        lemma_before_differs(p2[0], p1[0]);
    }
    lemma_decimal_injective(w1.month as nat, w2.month as nat, 2);
    lemma_decimal_injective(w1.day as nat, w2.day as nat, 2);
    lemma_decimal_injective(w1.hour as nat, w2.hour as nat, 2);
    lemma_decimal_injective(w1.minute as nat, w2.minute as nat, 2);
    lemma_decimal_injective(w1.second as nat, w2.second as nat, 2);
    lemma_decimal_injective(w1.nanosecond as nat, w2.nanosecond as nat, 10);
    lemma_offset_key(t1.time.utc_offset_seconds as int, t2.time.utc_offset_seconds as int);
    reveal_strlit("m");
    reveal_strlit("f");
    assert("m"@ =~= seq!['m']);
    assert("f"@ =~= seq!['f']);
    if t1.provenance != t2.provenance {
        assert(p1[10][0] != p2[10][0]);
    }
    assert(t1.provenance == t2.provenance);
    assert(w1 == w2);
}

} // verus!
