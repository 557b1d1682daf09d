use vstd::prelude::*;
use crate::text::{all_digits, chars_of, digits_value, is_decimal, is_decimal_text, read_digits};

verus! {

/// The calendar hour that a timestamp names: `YYYY-MM-DD HH`, the rest of the
/// text ignored. No calendar rule is applied to the numbers.
#[derive(Clone, Copy, Debug, PartialEq, Eq, Structural)]
pub struct Time {
    pub year: u32,
    pub month: u32,
    pub date: u32,
    pub hour: u32,
}

/// At least 13 characters, with digits at the places of year, month, day
/// and hour.
pub open spec fn is_timestamp(s: Seq<char>) -> bool {
    &&& s.len() >= 13
    &&& all_digits(s.subrange(0, 4))
    &&& all_digits(s.subrange(5, 7))
    &&& all_digits(s.subrange(8, 10))
    &&& all_digits(s.subrange(11, 13))
}

pub open spec fn time_of(s: Seq<char>) -> Time {
    Time {
        year: digits_value(s.subrange(0, 4)) as u32,
        month: digits_value(s.subrange(5, 7)) as u32,
        date: digits_value(s.subrange(8, 10)) as u32,
        hour: digits_value(s.subrange(11, 13)) as u32,
    }
}

/// The measured quantities of a record, each read from its own column.
#[derive(Clone, Copy, Debug, PartialEq, Eq, Structural)]
pub enum Reading {
    Temperature,
    ApparentTemperature,
    Humidity,
    WindSpeed,
    WindBearing,
    Visibility,
    CloudCover,
    Pressure,
}

impl Reading {
    /// The column that holds this quantity.
    pub open spec fn column(self) -> int {
        match self {
            Reading::Temperature => 3,
            Reading::ApparentTemperature => 4,
            Reading::Humidity => 5,
            Reading::WindSpeed => 6,
            Reading::WindBearing => 7,
            Reading::Visibility => 8,
            Reading::CloudCover => 9,
            Reading::Pressure => 10,
        }
    }

    /// The field name of this quantity.
    pub open spec fn field_name(self) -> Seq<char> {
        match self {
            Reading::Temperature => "temperature"@,
            Reading::ApparentTemperature => "apparent_temperature"@,
            Reading::Humidity => "humidity"@,
            Reading::WindSpeed => "wind_speed"@,
            Reading::WindBearing => "wind_bearing"@,
            Reading::Visibility => "visibility"@,
            Reading::CloudCover => "cloud_cover"@,
            Reading::Pressure => "pressure"@,
        }
    }

    /// The field name under which a failure reports this quantity.
    pub fn name(&self) -> (r: &'static str)
        ensures
            r@ == self.field_name(),
    {
        match self {
            Reading::Temperature => "temperature",
            Reading::ApparentTemperature => "apparent_temperature",
            Reading::Humidity => "humidity",
            Reading::WindSpeed => "wind_speed",
            Reading::WindBearing => "wind_bearing",
            Reading::Visibility => "visibility",
            Reading::CloudCover => "cloud_cover",
            Reading::Pressure => "pressure",
        }
    }
}

/// Why a row, or the input as a whole, could not be decoded.
#[derive(Clone, Debug, PartialEq)]
pub enum DecodeError {
    /// The timestamp column, as it stood.
    TimestampParse(String),
    /// A quantity whose column is not a decimal number, and that column.
    FieldParse(Reading, String),
    /// A column past the twelfth: its index and its text.
    UnexpectedColumn(usize, String),
    /// The tabular reader could not split the row into columns.
    MalformedRow,
    /// The input could not be read.
    IOFailure,
}

impl Time {
    /// Reads the year, month, day and hour at their fixed places.
    pub fn time_from_string(data: String) -> (r: Result<Time, DecodeError>)
        ensures
            match r {
                Ok(t) => is_timestamp(data@) && t == time_of(data@),
                Err(e) => !is_timestamp(data@) && (e matches DecodeError::TimestampParse(t)
                    && t@ == data@),
            },
    {
        let cs = chars_of(data.as_str());
        if cs.len() < 13 {
            return Err(DecodeError::TimestampParse(data));
        }
        let year = read_digits(&cs, 0, 4);
        let month = read_digits(&cs, 5, 7);
        let date = read_digits(&cs, 8, 10);
        let hour = read_digits(&cs, 11, 13);
        match (year, month, date, hour) {
            (Some(year), Some(month), Some(date), Some(hour)) => Ok(Time { year, month, date, hour }),
            _ => Err(DecodeError::TimestampParse(data)),
        }
    }
}


/// The twelve columns of a row as text, in column order, before any of them
/// is read.
pub struct RawCSVData<T> {
    pub formatted_date: T,
    pub summary: T,
    pub precip_kind: T,
    pub temperature: T,
    pub apparent_temperature: T,
    pub humidity: T,
    pub wind_speed: T,
    pub wind_bearing: T,
    pub visibility: T,
    pub cloud_cover: T,
    pub pressure: T,
    pub daily_summary: T,
}

/// The number of columns of a row.
pub const COLUMNS: usize = 12;

/// Twelve empty columns.
pub open spec fn blank_fields() -> Seq<Seq<char>> {
    Seq::new(12, |i: int| Seq::<char>::empty())
}

/// `fields` with its first columns replaced by `cols`, one for one.
pub open spec fn laid_out(fields: Seq<Seq<char>>, cols: Seq<Seq<char>>) -> Seq<Seq<char>> {
    Seq::new(12, |i: int| if i < cols.len() { cols[i] } else { fields[i] })
}

impl RawCSVData<String> {
    /// The columns, in order.
    pub open spec fn fields(&self) -> Seq<Seq<char>> {
        seq![
            self.formatted_date@,
            self.summary@,
            self.precip_kind@,
            self.temperature@,
            self.apparent_temperature@,
            self.humidity@,
            self.wind_speed@,
            self.wind_bearing@,
            self.visibility@,
            self.cloud_cover@,
            self.pressure@,
            self.daily_summary@,
        ]
    }

    /// A row whose columns are all empty.
    pub fn new() -> (r: Self)
        ensures
            r.fields() == blank_fields(),
    {
        let r = RawCSVData {
            formatted_date: String::new(),
            summary: String::new(),
            precip_kind: String::new(),
            temperature: String::new(),
            apparent_temperature: String::new(),
            humidity: String::new(),
            wind_speed: String::new(),
            wind_bearing: String::new(),
            visibility: String::new(),
            cloud_cover: String::new(),
            pressure: String::new(),
            daily_summary: String::new(),
        };
        assert(r.fields() =~= blank_fields());
        r
    }

    fn set_column(&mut self, i: usize, v: String)
        requires
            i < COLUMNS,
        ensures
            final(self).fields() == old(self).fields().update(i as int, v@),
    {
        let ghost v_view = v@;
        match i {
            0 => self.formatted_date = v,
            1 => self.summary = v,
            2 => self.precip_kind = v,
            3 => self.temperature = v,
            4 => self.apparent_temperature = v,
            5 => self.humidity = v,
            6 => self.wind_speed = v,
            7 => self.wind_bearing = v,
            8 => self.visibility = v,
            9 => self.cloud_cover = v,
            10 => self.pressure = v,
            _ => self.daily_summary = v,
        }
        assert(self.fields() =~= old(self).fields().update(i as int, v_view));
    }

    /// Places the columns of a row, in order. A row with more than twelve
    /// columns is refused as a whole and leaves `self` as it was.
    pub fn from_row(&mut self, columns: &Vec<String>) -> (r: Result<(), DecodeError>)
        ensures
            columns.len() > COLUMNS ==> (r matches Err(DecodeError::UnexpectedColumn(i, t))
                && i == COLUMNS && t@ == columns@[12]@) && final(self).fields() == old(
                self,
            ).fields(),
            columns.len() <= COLUMNS ==> r is Ok && final(self).fields() == laid_out(
                old(self).fields(),
                columns.deep_view(),
            ),
    {
        if columns.len() > COLUMNS {
            return Err(DecodeError::UnexpectedColumn(COLUMNS, columns[COLUMNS].clone()));
        }
        let mut i: usize = 0;
        assert(laid_out(old(self).fields(), columns.deep_view().take(0)) =~= self.fields());
        while i < columns.len()
            invariant
                columns.len() <= COLUMNS,
                i <= columns.len(),
                self.fields() == laid_out(
                    old(self).fields(),
                    columns.deep_view().take(i as int),
                ),
            decreases columns.len() - i,
        {
            self.set_column(i, columns[i].clone());
            assert(laid_out(old(self).fields(), columns.deep_view().take(i + 1)) =~= laid_out(
                old(self).fields(),
                columns.deep_view().take(i as int),
            ).update(i as int, columns@[i as int]@));
            i = i + 1;
        }
        assert(columns.deep_view().take(i as int) == columns.deep_view());
        Ok(())
    }
}


/// One decoded row. Each quantity is kept as the decimal text that its
/// column held, which is known to be a valid decimal number.
#[derive(Clone, Debug, PartialEq)]
pub struct WeatherData {
    pub formatted_date: Time,
    pub summary: String,
    pub precip_kind: String,
    pub temperature: String,
    pub apparent_temperature: String,
    pub humidity: String,
    pub wind_speed: String,
    pub wind_bearing: String,
    pub visibility: String,
    pub cloud_cover: String,
    pub pressure: String,
    pub daily_summary: String,
}

impl WeatherData {
    /// The text of the columns after the timestamp, in column order.
    pub open spec fn texts(&self) -> Seq<Seq<char>> {
        seq![
            self.summary@,
            self.precip_kind@,
            self.temperature@,
            self.apparent_temperature@,
            self.humidity@,
            self.wind_speed@,
            self.wind_bearing@,
            self.visibility@,
            self.cloud_cover@,
            self.pressure@,
            self.daily_summary@,
        ]
    }
}

/// The first quantity, in column order, whose column is not a decimal
/// number.
pub open spec fn reading_fault(f: Seq<Seq<char>>) -> Option<Reading> {
    if !is_decimal(f[3]) {
        Some(Reading::Temperature)
    } else if !is_decimal(f[4]) {
        Some(Reading::ApparentTemperature)
    } else if !is_decimal(f[5]) {
        Some(Reading::Humidity)
    } else if !is_decimal(f[6]) {
        Some(Reading::WindSpeed)
    } else if !is_decimal(f[7]) {
        Some(Reading::WindBearing)
    } else if !is_decimal(f[8]) {
        Some(Reading::Visibility)
    } else if !is_decimal(f[9]) {
        Some(Reading::CloudCover)
    } else if !is_decimal(f[10]) {
        Some(Reading::Pressure)
    } else {
        None
    }
}

/// Twelve columns that decode to a record.
pub open spec fn decodes(f: Seq<Seq<char>>) -> bool {
    is_timestamp(f[0]) && reading_fault(f) is None
}

/// `w` is the record that the twelve columns `f` hold.
pub open spec fn record_of(f: Seq<Seq<char>>, w: WeatherData) -> bool {
    w.formatted_date == time_of(f[0]) && w.texts() == f.subrange(1, 12)
}

/// `e` is the failure that the twelve columns `f` give: the timestamp's
/// first, then the first quantity that is not a number.
pub open spec fn fault_of(f: Seq<Seq<char>>, e: DecodeError) -> bool {
    if !is_timestamp(f[0]) {
        e matches DecodeError::TimestampParse(t) && t@ == f[0]
    } else {
        match reading_fault(f) {
            Some(k) => e matches DecodeError::FieldParse(q, t) && q == k && t@ == f[k.column()],
            None => false,
        }
    }
}

/// `r` is what decoding the twelve columns `f` gives.
pub open spec fn raw_outcome(f: Seq<Seq<char>>, r: Result<WeatherData, DecodeError>) -> bool {
    match r {
        Ok(w) => decodes(f) && record_of(f, w),
        Err(e) => !decodes(f) && fault_of(f, e),
    }
}

/// The twelve columns that a row of `cols` lays out, the missing ones empty.
pub open spec fn row_fields(cols: Seq<Seq<char>>) -> Seq<Seq<char>> {
    laid_out(blank_fields(), cols)
}

/// `r` is what decoding a row of columns `cols` gives.
pub open spec fn row_outcome(cols: Seq<Seq<char>>, r: Result<WeatherData, DecodeError>) -> bool {
    if cols.len() > 12 {
        r matches Err(DecodeError::UnexpectedColumn(i, t)) && i == 12 && t@ == cols[12]
    } else {
        raw_outcome(row_fields(cols), r)
    }
}

/// Keeps the text of a quantity's column if it is a decimal number.
fn check_reading(kind: Reading, text: String) -> (r: Result<String, DecodeError>)
    ensures
        match r {
            Ok(v) => is_decimal(text@) && v@ == text@,
            Err(e) => !is_decimal(text@) && (e matches DecodeError::FieldParse(q, t) && q == kind
                && t@ == text@),
        },
{
    if is_decimal_text(text.as_str()) {
        Ok(text)
    } else {
        Err(DecodeError::FieldParse(kind, text))
    }
}

impl WeatherData {
    /// Reads the timestamp and the quantities of a row's columns.
    pub fn from_raw(data: RawCSVData<String>) -> (r: Result<WeatherData, DecodeError>)
        ensures
            raw_outcome(data.fields(), r),
    {
        let ghost f = data.fields();
        let formatted_date = match Time::time_from_string(data.formatted_date) {
            Ok(t) => t,
            Err(e) => return Err(e),
        };
        let temperature = match check_reading(Reading::Temperature, data.temperature) {
            Ok(v) => v,
            Err(e) => return Err(e),
        };
        let apparent_temperature = match check_reading(
            Reading::ApparentTemperature,
            data.apparent_temperature,
        ) {
            Ok(v) => v,
            Err(e) => return Err(e),
        };
        let humidity = match check_reading(Reading::Humidity, data.humidity) {
            Ok(v) => v,
            Err(e) => return Err(e),
        };
        let wind_speed = match check_reading(Reading::WindSpeed, data.wind_speed) {
            Ok(v) => v,
            Err(e) => return Err(e),
        };
        let wind_bearing = match check_reading(Reading::WindBearing, data.wind_bearing) {
            Ok(v) => v,
            Err(e) => return Err(e),
        };
        let visibility = match check_reading(Reading::Visibility, data.visibility) {
            Ok(v) => v,
            Err(e) => return Err(e),
        };
        let cloud_cover = match check_reading(Reading::CloudCover, data.cloud_cover) {
            Ok(v) => v,
            Err(e) => return Err(e),
        };
        let pressure = match check_reading(Reading::Pressure, data.pressure) {
            Ok(v) => v,
            Err(e) => return Err(e),
        };
        let w = WeatherData {
            formatted_date,
            summary: data.summary,
            precip_kind: data.precip_kind,
            temperature,
            apparent_temperature,
            humidity,
            wind_speed,
            wind_bearing,
            visibility,
            cloud_cover,
            pressure,
            daily_summary: data.daily_summary,
        };
        assert(w.texts() =~= f.subrange(1, 12));
        Ok(w)
    }
}

/// Decodes one row given as its columns, in order.
pub fn decode_row(columns: &Vec<String>) -> (r: Result<WeatherData, DecodeError>)
    ensures
        row_outcome(columns.deep_view(), r),
{
    let mut raw = RawCSVData::new();
    match raw.from_row(columns) {
        Ok(()) => WeatherData::from_raw(raw),
        Err(e) => Err(e),
    }
}


/// A row of twelve columns, with a timestamp in the form `YYYY-MM-DD HH` and
/// a decimal number in the column of each quantity, decodes; the record holds
/// the time read from the timestamp and the text of every other column, and
/// decoding the columns that the record holds gives the same record back.
pub proof fn lemma_well_formed_row_decodes(cols: Seq<Seq<char>>, r: Result<WeatherData, DecodeError>)
    requires
        cols.len() == 12,
        is_timestamp(cols[0]),
        forall|k: int| 3 <= k <= 10 ==> is_decimal(#[trigger] cols[k]),
        row_outcome(cols, r),
    ensures
        r matches Ok(w) && w.formatted_date == time_of(cols[0]) && w.texts() == cols.subrange(
            1,
            12,
        ) && row_outcome(seq![cols[0]] + w.texts(), r),
{
    assert(row_fields(cols) =~= cols);
    assert(is_decimal(cols[3]) && is_decimal(cols[4]) && is_decimal(cols[5]) && is_decimal(cols[6]));
    assert(is_decimal(cols[7]) && is_decimal(cols[8]) && is_decimal(cols[9]) && is_decimal(cols[10]));
    let w = r->Ok_0;
    assert(seq![cols[0]] + w.texts() =~= cols);
}

/// A row of at most twelve columns whose timestamp has fewer than 13
/// characters fails with that timestamp.
pub proof fn lemma_short_timestamp_fails(cols: Seq<Seq<char>>, r: Result<WeatherData, DecodeError>)
    requires
        cols.len() <= 12,
        row_fields(cols)[0].len() < 13,
        row_outcome(cols, r),
    ensures
        r matches Err(DecodeError::TimestampParse(t)) && t@ == row_fields(cols)[0],
{
}

/// A row of at most twelve columns with a good timestamp, whose first column
/// of a quantity that is not a decimal number is that of `k`, fails naming
/// `k` and that column's text.
pub proof fn lemma_bad_reading_fails(
    cols: Seq<Seq<char>>,
    k: Reading,
    r: Result<WeatherData, DecodeError>,
)
    requires
        cols.len() <= 12,
        is_timestamp(row_fields(cols)[0]),
        !is_decimal(row_fields(cols)[k.column()]),
        forall|j: int| 3 <= j < k.column() ==> is_decimal(#[trigger] row_fields(cols)[j]),
        row_outcome(cols, r),
    ensures
        r matches Err(DecodeError::FieldParse(q, t)) && q == k && t@ == row_fields(cols)[k.column()],
{
    let f = row_fields(cols);
    if k.column() > 3 { assert(is_decimal(f[3])); }
    if k.column() > 4 { assert(is_decimal(f[4])); }
    if k.column() > 5 { assert(is_decimal(f[5])); }
    if k.column() > 6 { assert(is_decimal(f[6])); }
    if k.column() > 7 { assert(is_decimal(f[7])); }
    if k.column() > 8 { assert(is_decimal(f[8])); }
    if k.column() > 9 { assert(is_decimal(f[9])); }
}

/// A row of 13 or more columns fails on the thirteenth.
pub proof fn lemma_extra_column_fails(cols: Seq<Seq<char>>, r: Result<WeatherData, DecodeError>)
    requires
        cols.len() >= 13,
        row_outcome(cols, r),
    ensures
        r matches Err(DecodeError::UnexpectedColumn(i, t)) && i == 12 && t@ == cols[12],
{
}

} // verus!
