//! JSON values and their total comparison order.
//!
//! Values of different kinds compare by a fixed precedence (null lowest,
//! then numbers, strings, objects, arrays, booleans, dates, times of day,
//! datetimes, opaque blobs); values of the same kind compare by content.

use vstd::prelude::*;

verus! {

pub const PRECEDENCE_OPAQUE: i32 = -3;
pub const PRECEDENCE_DATETIME: i32 = -4;
pub const PRECEDENCE_TIME: i32 = -5;
pub const PRECEDENCE_DATE: i32 = -6;
pub const PRECEDENCE_BOOLEAN: i32 = -7;
pub const PRECEDENCE_ARRAY: i32 = -8;
pub const PRECEDENCE_OBJECT: i32 = -9;
pub const PRECEDENCE_STRING: i32 = -10;
pub const PRECEDENCE_NUMBER: i32 = -11;
pub const PRECEDENCE_NULL: i32 = -12;

/// The kind tag of a JSON value.
#[derive(Clone, Copy, Debug, PartialEq, Eq, Structural)]
pub enum JsonType {
    Object,
    Array,
    Literal,
    I64,
    U64,
    String,
    Opaque,
    Date,
    Datetime,
    Timestamp,
    Time,
}

/// Which calendar/clock concept a [`Time`] value stands for.
#[derive(Clone, Copy, Debug, PartialEq, Eq, Structural)]
pub enum TimeType {
    Date,
    DateTime,
    Timestamp,
}

/// A calendar point, broken into its fields.
#[derive(Clone, Copy, Debug, PartialEq, Eq, Structural)]
pub struct Time {
    pub year: u16,
    pub month: u8,
    pub day: u8,
    pub hour: u8,
    pub minute: u8,
    pub second: u8,
    pub micros: u32,
    pub time_type: TimeType,
}

impl Time {
    pub fn new(
        year: u16,
        month: u8,
        day: u8,
        hour: u8,
        minute: u8,
        second: u8,
        micros: u32,
        time_type: TimeType,
    ) -> (r: Time)
        ensures
            r == (Time { year, month, day, hour, minute, second, micros, time_type }),
    {
        Time { year, month, day, hour, minute, second, micros, time_type }
    }
}

/// A clock duration (time of day), broken into its fields.
#[derive(Clone, Copy, Debug, PartialEq, Eq, Structural)]
pub struct Duration {
    pub neg: bool,
    pub hours: u32,
    pub minutes: u8,
    pub seconds: u8,
    pub micros: u32,
}

impl Duration {
    pub fn new_hms(hours: u32, minutes: u8, seconds: u8) -> (r: Duration)
        ensures
            r == (Duration { neg: false, hours, minutes, seconds, micros: 0 }),
    {
        Duration { neg: false, hours, minutes, seconds, micros: 0 }
    }

    /// The signed length in microseconds.
    pub open spec fn signed_micros(self) -> int {
        let magnitude = (self.hours * 3_600_000_000 + self.minutes * 60_000_000 + self.seconds
            * 1_000_000) + self.micros;
        if self.neg {
            -magnitude
        } else {
            magnitude
        }
    }
}

/// A JSON value. Strings and opaque payloads are byte sequences; object
/// entries keep their construction order.
#[derive(Debug)]
pub enum Json {
    Null,
    Bool(bool),
    I64(i64),
    U64(u64),
    String(Vec<u8>),
    Array(Vec<Json>),
    Object(Vec<(Vec<u8>, Json)>),
    Opaque(Vec<u8>),
    Date(Time),
    Datetime(Time),
    Timestamp(Time),
    Time(Duration),
}

impl Json {
    pub fn get_type(&self) -> (r: JsonType)
        ensures
            r == spec_json_type(*self),
    {
        match self {
            Json::Null => JsonType::Literal,
            Json::Bool(_) => JsonType::Literal,
            Json::I64(_) => JsonType::I64,
            Json::U64(_) => JsonType::U64,
            Json::String(_) => JsonType::String,
            Json::Array(_) => JsonType::Array,
            Json::Object(_) => JsonType::Object,
            Json::Opaque(_) => JsonType::Opaque,
            Json::Date(_) => JsonType::Date,
            Json::Datetime(_) => JsonType::Datetime,
            Json::Timestamp(_) => JsonType::Timestamp,
            Json::Time(_) => JsonType::Time,
        }
    }

    /// The comparison precedence of this value's kind.
    pub fn get_precedence(&self) -> (r: i32)
        ensures
            r == spec_precedence(*self),
    {
        match self {
            Json::Null => PRECEDENCE_NULL,
            Json::Bool(_) => PRECEDENCE_BOOLEAN,
            Json::I64(_) => PRECEDENCE_NUMBER,
            Json::U64(_) => PRECEDENCE_NUMBER,
            Json::String(_) => PRECEDENCE_STRING,
            Json::Array(_) => PRECEDENCE_ARRAY,
            Json::Object(_) => PRECEDENCE_OBJECT,
            Json::Opaque(_) => PRECEDENCE_OPAQUE,
            Json::Date(_) => PRECEDENCE_DATE,
            Json::Datetime(_) => PRECEDENCE_DATETIME,
            Json::Timestamp(_) => PRECEDENCE_DATETIME,
            Json::Time(_) => PRECEDENCE_TIME,
        }
    }
}

pub open spec fn spec_json_type(j: Json) -> JsonType {
    match j {
        Json::Null => JsonType::Literal,
        Json::Bool(_) => JsonType::Literal,
        Json::I64(_) => JsonType::I64,
        Json::U64(_) => JsonType::U64,
        Json::String(_) => JsonType::String,
        Json::Array(_) => JsonType::Array,
        Json::Object(_) => JsonType::Object,
        Json::Opaque(_) => JsonType::Opaque,
        Json::Date(_) => JsonType::Date,
        Json::Datetime(_) => JsonType::Datetime,
        Json::Timestamp(_) => JsonType::Timestamp,
        Json::Time(_) => JsonType::Time,
    }
}

pub open spec fn spec_precedence(j: Json) -> int {
    match j {
        Json::Null => PRECEDENCE_NULL as int,
        Json::Bool(_) => PRECEDENCE_BOOLEAN as int,
        Json::I64(_) => PRECEDENCE_NUMBER as int,
        Json::U64(_) => PRECEDENCE_NUMBER as int,
        Json::String(_) => PRECEDENCE_STRING as int,
        Json::Array(_) => PRECEDENCE_ARRAY as int,
        Json::Object(_) => PRECEDENCE_OBJECT as int,
        Json::Opaque(_) => PRECEDENCE_OPAQUE as int,
        Json::Date(_) => PRECEDENCE_DATE as int,
        Json::Datetime(_) => PRECEDENCE_DATETIME as int,
        Json::Timestamp(_) => PRECEDENCE_DATETIME as int,
        Json::Time(_) => PRECEDENCE_TIME as int,
    }
}

/// Lexicographic order on byte sequences.
pub open spec fn spec_cmp_bytes(a: Seq<u8>, b: Seq<u8>) -> core::cmp::Ordering
    decreases a.len(),
{
    if a.len() == 0 && b.len() == 0 {
        core::cmp::Ordering::Equal
    } else if a.len() == 0 {
        core::cmp::Ordering::Less
    } else if b.len() == 0 {
        core::cmp::Ordering::Greater
    } else if a[0] < b[0] {
        core::cmp::Ordering::Less
    } else if a[0] > b[0] {
        core::cmp::Ordering::Greater
    } else {
        spec_cmp_bytes(a.skip(1), b.skip(1))
    }
}

pub open spec fn spec_cmp_int(a: int, b: int) -> core::cmp::Ordering {
    if a < b {
        core::cmp::Ordering::Less
    } else if a > b {
        core::cmp::Ordering::Greater
    } else {
        core::cmp::Ordering::Equal
    }
}

/// Order on calendar points: chronological by field significance.
pub open spec fn spec_cmp_time(a: Time, b: Time) -> core::cmp::Ordering {
    if a.year != b.year {
        spec_cmp_int(a.year as int, b.year as int)
    } else if a.month != b.month {
        spec_cmp_int(a.month as int, b.month as int)
    } else if a.day != b.day {
        spec_cmp_int(a.day as int, b.day as int)
    } else if a.hour != b.hour {
        spec_cmp_int(a.hour as int, b.hour as int)
    } else if a.minute != b.minute {
        spec_cmp_int(a.minute as int, b.minute as int)
    } else if a.second != b.second {
        spec_cmp_int(a.second as int, b.second as int)
    } else {
        spec_cmp_int(a.micros as int, b.micros as int)
    }
}

/// The total order on JSON values: by precedence first, then by content.
pub open spec fn spec_cmp_json(a: Json, b: Json) -> core::cmp::Ordering
    decreases a, b,
{
    if spec_precedence(a) != spec_precedence(b) {
        spec_cmp_int(spec_precedence(a), spec_precedence(b))
    } else {
        match (a, b) {
            (Json::Null, Json::Null) => core::cmp::Ordering::Equal,
            (Json::Bool(x), Json::Bool(y)) => if x == y {
                core::cmp::Ordering::Equal
            } else if !x {
                core::cmp::Ordering::Less
            } else {
                core::cmp::Ordering::Greater
            },
            (Json::I64(x), Json::I64(y)) => spec_cmp_int(x as int, y as int),
            (Json::I64(x), Json::U64(y)) => spec_cmp_int(x as int, y as int),
            (Json::U64(x), Json::I64(y)) => spec_cmp_int(x as int, y as int),
            (Json::U64(x), Json::U64(y)) => spec_cmp_int(x as int, y as int),
            (Json::String(x), Json::String(y)) => spec_cmp_bytes(x@, y@),
            (Json::Array(x), Json::Array(y)) => spec_cmp_arrays(x@, y@),
            (Json::Object(x), Json::Object(y)) => spec_cmp_entries(x@, y@),
            (Json::Opaque(x), Json::Opaque(y)) => spec_cmp_bytes(x@, y@),
            (Json::Date(x), Json::Date(y)) => spec_cmp_time(x, y),
            (Json::Datetime(x), Json::Datetime(y)) => spec_cmp_time(x, y),
            (Json::Datetime(x), Json::Timestamp(y)) => spec_cmp_time(x, y),
            (Json::Timestamp(x), Json::Datetime(y)) => spec_cmp_time(x, y),
            (Json::Timestamp(x), Json::Timestamp(y)) => spec_cmp_time(x, y),
            (Json::Time(x), Json::Time(y)) => spec_cmp_int(
                x.signed_micros(),
                y.signed_micros(),
            ),
            _ => core::cmp::Ordering::Equal,
        }
    }
}

/// Total order on machine words.
pub fn compare(x: u64, y: u64) -> (r: core::cmp::Ordering)
    ensures
        r == spec_cmp_int(x as int, y as int),
{
    if x < y {
        core::cmp::Ordering::Less
    } else if x > y {
        core::cmp::Ordering::Greater
    } else {
        core::cmp::Ordering::Equal
    }
}

/// Order between a signed and an unsigned word, exact over the integers.
pub fn compare_i64_u64(x: i64, y: u64) -> (r: core::cmp::Ordering)
    ensures
        r == spec_cmp_int(x as int, y as int),
{
    if x < 0 {
        core::cmp::Ordering::Less
    } else {
        compare(x as u64, y)
    }
}

/// Lexicographic comparison of byte strings.
pub fn compare_bytes(a: &Vec<u8>, b: &Vec<u8>) -> (r: core::cmp::Ordering)
    ensures
        r == spec_cmp_bytes(a@, b@),
{
    let ghost av = a@;
    let ghost bv = b@;
    let mut i: usize = 0;
    proof {
        assert(av.skip(0) =~= av);
        assert(bv.skip(0) =~= bv);
    }
    while i < a.len() && i < b.len()
        invariant
            i <= av.len(),
            i <= bv.len(),
            av == a@,
            bv == b@,
            spec_cmp_bytes(av, bv) == spec_cmp_bytes(av.skip(i as int), bv.skip(i as int)),
        decreases av.len() - i,
    {
        proof {
            crate::store::lemma_skip_step(av, i as int);
            crate::store::lemma_skip_step(bv, i as int);
        }
        if a[i] < b[i] {
            return core::cmp::Ordering::Less;
        }
        if a[i] > b[i] {
            return core::cmp::Ordering::Greater;
        }
        i = i + 1;
    }
    proof {
        if i < av.len() {
            crate::store::lemma_skip_step(av, i as int);
        }
        if i < bv.len() {
            crate::store::lemma_skip_step(bv, i as int);
        }
        assert(av.skip(i as int).len() == av.len() - i);
        assert(bv.skip(i as int).len() == bv.len() - i);
    }
    if a.len() < b.len() {
        core::cmp::Ordering::Less
    } else if a.len() > b.len() {
        core::cmp::Ordering::Greater
    } else {
        core::cmp::Ordering::Equal
    }
}

fn compare_time(a: &Time, b: &Time) -> (r: core::cmp::Ordering)
    ensures
        r == spec_cmp_time(*a, *b),
{
    if a.year != b.year {
        if a.year < b.year {
            core::cmp::Ordering::Less
        } else {
            core::cmp::Ordering::Greater
        }
    } else if a.month != b.month {
        if a.month < b.month {
            core::cmp::Ordering::Less
        } else {
            core::cmp::Ordering::Greater
        }
    } else if a.day != b.day {
        if a.day < b.day {
            core::cmp::Ordering::Less
        } else {
            core::cmp::Ordering::Greater
        }
    } else if a.hour != b.hour {
        if a.hour < b.hour {
            core::cmp::Ordering::Less
        } else {
            core::cmp::Ordering::Greater
        }
    } else if a.minute != b.minute {
        if a.minute < b.minute {
            core::cmp::Ordering::Less
        } else {
            core::cmp::Ordering::Greater
        }
    } else if a.second != b.second {
        if a.second < b.second {
            core::cmp::Ordering::Less
        } else {
            core::cmp::Ordering::Greater
        }
    } else {
        if a.micros < b.micros {
            core::cmp::Ordering::Less
        } else if a.micros > b.micros {
            core::cmp::Ordering::Greater
        } else {
            core::cmp::Ordering::Equal
        }
    }
}

fn compare_duration(a: &Duration, b: &Duration) -> (r: core::cmp::Ordering)
    ensures
        r == spec_cmp_int(a.signed_micros(), b.signed_micros()),
{
    let ma: u64 = (a.hours as u64) * 3_600_000_000 + (a.minutes as u64) * 60_000_000 + (
    a.seconds as u64) * 1_000_000 + a.micros as u64;
    let mb: u64 = (b.hours as u64) * 3_600_000_000 + (b.minutes as u64) * 60_000_000 + (
    b.seconds as u64) * 1_000_000 + b.micros as u64;
    let a_neg = a.neg && ma > 0;
    let b_neg = b.neg && mb > 0;
    if a_neg && b_neg {
        compare(mb, ma)
    } else if a_neg {
        core::cmp::Ordering::Less
    } else if b_neg {
        core::cmp::Ordering::Greater
    } else {
        compare(ma, mb)
    }
}

impl Json {
    /// The total comparison order: precedence first, then content (see
    /// [`spec_cmp_json`]).
    pub fn cmp(&self, right: &Json) -> (r: core::cmp::Ordering)
        ensures
            r == spec_cmp_json(*self, *right),
        decreases *self, *right,
    {
        let pl = self.get_precedence();
        let pr = right.get_precedence();
        if pl != pr {
            return if pl < pr {
                core::cmp::Ordering::Less
            } else {
                core::cmp::Ordering::Greater
            };
        }
        match (self, right) {
            (Json::Null, Json::Null) => core::cmp::Ordering::Equal,
            (Json::Bool(x), Json::Bool(y)) => {
                if x == y {
                    core::cmp::Ordering::Equal
                } else if !*x {
                    core::cmp::Ordering::Less
                } else {
                    core::cmp::Ordering::Greater
                }
            },
            (Json::I64(x), Json::I64(y)) => {
                if x < y {
                    core::cmp::Ordering::Less
                } else if x > y {
                    core::cmp::Ordering::Greater
                } else {
                    core::cmp::Ordering::Equal
                }
            },
            (Json::I64(x), Json::U64(y)) => compare_i64_u64(*x, *y),
            (Json::U64(x), Json::I64(y)) => {
                if *y < 0 {
                    core::cmp::Ordering::Greater
                } else {
                    compare(*x, *y as u64)
                }
            },
            (Json::U64(x), Json::U64(y)) => compare(*x, *y),
            (Json::String(x), Json::String(y)) => compare_bytes(x, y),
            (Json::Array(x), Json::Array(y)) => {
                let ghost xv = x@;
                let ghost yv = y@;
                let mut i: usize = 0;
                proof {
                    assert(xv.skip(0) =~= xv);
                    assert(yv.skip(0) =~= yv);
                }
                while i < x.len() && i < y.len()
                    invariant
                        i <= xv.len(),
                        i <= yv.len(),
                        xv == x@,
                        yv == y@,
                        *self == Json::Array(*x),
                        *right == Json::Array(*y),
                        spec_cmp_arrays(xv, yv) == spec_cmp_arrays(
                            xv.skip(i as int),
                            yv.skip(i as int),
                        ),
                    decreases xv.len() - i,
                {
                    proof {
                        crate::store::lemma_skip_step(xv, i as int);
                        crate::store::lemma_skip_step(yv, i as int);
                    }
                    let o = x[i].cmp(&y[i]);
                    if !matches!(o, core::cmp::Ordering::Equal) {
                        proof {
                            assert(spec_cmp_json(*self, *right) == o);
                        }
                        return o;
                    }
                    i = i + 1;
                }
                proof {
                    if i < xv.len() {
                        crate::store::lemma_skip_step(xv, i as int);
                    }
                    if i < yv.len() {
                        crate::store::lemma_skip_step(yv, i as int);
                    }
                    assert(xv.skip(i as int).len() == xv.len() - i);
                    assert(yv.skip(i as int).len() == yv.len() - i);
                }
                if x.len() < y.len() {
                    core::cmp::Ordering::Less
                } else if x.len() > y.len() {
                    core::cmp::Ordering::Greater
                } else {
                    core::cmp::Ordering::Equal
                }
            },
            (Json::Object(x), Json::Object(y)) => {
                let ghost xv = x@;
                let ghost yv = y@;
                let mut i: usize = 0;
                proof {
                    assert(xv.skip(0) =~= xv);
                    assert(yv.skip(0) =~= yv);
                }
                while i < x.len() && i < y.len()
                    invariant
                        i <= xv.len(),
                        i <= yv.len(),
                        xv == x@,
                        yv == y@,
                        *self == Json::Object(*x),
                        *right == Json::Object(*y),
                        spec_cmp_entries(xv, yv) == spec_cmp_entries(
                            xv.skip(i as int),
                            yv.skip(i as int),
                        ),
                    decreases xv.len() - i,
                {
                    proof {
                        crate::store::lemma_skip_step(xv, i as int);
                        crate::store::lemma_skip_step(yv, i as int);
                    }
                    let ko = compare_bytes(&x[i].0, &y[i].0);
                    if !matches!(ko, core::cmp::Ordering::Equal) {
                        proof {
                            assert(spec_cmp_json(*self, *right) == ko);
                        }
                        return ko;
                    }
                    let vo = x[i].1.cmp(&y[i].1);
                    if !matches!(vo, core::cmp::Ordering::Equal) {
                        proof {
                            assert(spec_cmp_json(*self, *right) == vo);
                        }
                        return vo;
                    }
                    i = i + 1;
                }
                proof {
                    if i < xv.len() {
                        crate::store::lemma_skip_step(xv, i as int);
                    }
                    if i < yv.len() {
                        crate::store::lemma_skip_step(yv, i as int);
                    }
                    assert(xv.skip(i as int).len() == xv.len() - i);
                    assert(yv.skip(i as int).len() == yv.len() - i);
                }
                if x.len() < y.len() {
                    core::cmp::Ordering::Less
                } else if x.len() > y.len() {
                    core::cmp::Ordering::Greater
                } else {
                    core::cmp::Ordering::Equal
                }
            },
            (Json::Opaque(x), Json::Opaque(y)) => compare_bytes(x, y),
            (Json::Date(x), Json::Date(y)) => compare_time(x, y),
            (Json::Datetime(x), Json::Datetime(y)) => compare_time(x, y),
            (Json::Datetime(x), Json::Timestamp(y)) => compare_time(x, y),
            (Json::Timestamp(x), Json::Datetime(y)) => compare_time(x, y),
            (Json::Timestamp(x), Json::Timestamp(y)) => compare_time(x, y),
            (Json::Time(x), Json::Time(y)) => compare_duration(x, y),
            _ => core::cmp::Ordering::Equal,
        }
    }

    pub fn none() -> (r: Json)
        ensures
            r == Json::Null,
    {
        Json::Null
    }

    pub fn from_bool(b: bool) -> (r: Json)
        ensures
            r == Json::Bool(b),
    {
        Json::Bool(b)
    }

    pub fn from_i64(v: i64) -> (r: Json)
        ensures
            r == Json::I64(v),
    {
        Json::I64(v)
    }

    pub fn from_u64(v: u64) -> (r: Json)
        ensures
            r == Json::U64(v),
    {
        Json::U64(v)
    }

    pub fn from_string(s: Vec<u8>) -> (r: Json)
        ensures
            r == Json::String(s),
    {
        Json::String(s)
    }

    pub fn from_array(elems: Vec<Json>) -> (r: Json)
        ensures
            r == Json::Array(elems),
    {
        Json::Array(elems)
    }

    pub fn from_object(entries: Vec<(Vec<u8>, Json)>) -> (r: Json)
        ensures
            r == Json::Object(entries),
    {
        Json::Object(entries)
    }

    pub fn from_opaque(bytes: Vec<u8>) -> (r: Json)
        ensures
            r == Json::Opaque(bytes),
    {
        Json::Opaque(bytes)
    }

    /// A calendar value; the kind tag follows the point's own type.
    pub fn from_time(t: Time) -> (r: Json)
        ensures
            r == match t.time_type {
                TimeType::Date => Json::Date(t),
                TimeType::DateTime => Json::Datetime(t),
                TimeType::Timestamp => Json::Timestamp(t),
            },
    {
        match t.time_type {
            TimeType::Date => Json::Date(t),
            TimeType::DateTime => Json::Datetime(t),
            TimeType::Timestamp => Json::Timestamp(t),
        }
    }

    pub fn from_duration(d: Duration) -> (r: Json)
        ensures
            r == Json::Time(d),
    {
        Json::Time(d)
    }
}

/// Arrays compare element by element, shorter prefix first.
pub open spec fn spec_cmp_arrays(x: Seq<Json>, y: Seq<Json>) -> core::cmp::Ordering
    decreases x, y,
{
    if x.len() == 0 && y.len() == 0 {
        core::cmp::Ordering::Equal
    } else if x.len() == 0 {
        core::cmp::Ordering::Less
    } else if y.len() == 0 {
        core::cmp::Ordering::Greater
    } else {
        match spec_cmp_json(x[0], y[0]) {
            core::cmp::Ordering::Equal => spec_cmp_arrays(x.skip(1), y.skip(1)),
            o => o,
        }
    }
}

/// Objects compare entry by entry — key bytes, then value — shorter prefix
/// first.
pub open spec fn spec_cmp_entries(x: Seq<(Vec<u8>, Json)>, y: Seq<(Vec<u8>, Json)>)
    -> core::cmp::Ordering
    decreases x, y,
{
    if x.len() == 0 && y.len() == 0 {
        core::cmp::Ordering::Equal
    } else if x.len() == 0 {
        core::cmp::Ordering::Less
    } else if y.len() == 0 {
        core::cmp::Ordering::Greater
    } else {
        match spec_cmp_bytes(x[0].0@, y[0].0@) {
            core::cmp::Ordering::Equal => match spec_cmp_json(x[0].1, y[0].1) {
                core::cmp::Ordering::Equal => spec_cmp_entries(x.skip(1), y.skip(1)),
                o => o,
            },
            o => o,
        }
    }
}

} // verus!
