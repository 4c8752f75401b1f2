//! The three readings a dashboard shows, normalised from the documents that
//! the time-series store and the weather service return.

use vstd::prelude::*;

use crate::number::Binary64;
use crate::document::{number_at, text_at, Doc, Step};

verus! {

/// Temperature (degrees Celsius), relative humidity (percent) and pressure (hPa).
#[derive(Clone, Copy, Debug, PartialEq, Eq, Structural)]
pub struct ClimateReading {
    pub temperature: Binary64,
    pub humidity: Binary64,
    pub pressure: Binary64,
}

/// The day's forecast; `precipitation` is the probability as a fraction.
#[derive(Clone, Debug)]
pub struct ForecastSummary {
    pub high: Binary64,
    pub low: Binary64,
    pub description: String,
    pub precipitation: Binary64,
}

/// Everything one render cycle shows.
#[derive(Clone, Debug)]
pub struct Readings {
    pub indoor: ClimateReading,
    pub outdoor: ClimateReading,
    pub forecast: ForecastSummary,
}

/// A failure that ends a render cycle, by where it arose, with its message.
#[derive(Clone, Debug)]
pub enum Oops {
    Io(String),
    Transport(String),
    Config(String),
}

impl Oops {
    pub open spec fn message_spec(&self) -> Seq<char> {
        match self {
            Oops::Io(m) => m@,
            Oops::Transport(m) => m@,
            Oops::Config(m) => m@,
        }
    }

    pub fn message(&self) -> (r: &String)
        ensures
            r@ == self.message_spec(),
    {
        match self {
            Oops::Io(m) => m,
            Oops::Transport(m) => m,
            Oops::Config(m) => m,
        }
    }
}

impl ClimateReading {
    pub open spec fn wf(self) -> bool {
        self.temperature.wf() && self.humidity.wf() && self.pressure.wf()
    }
}

impl ForecastSummary {
    pub open spec fn wf(self) -> bool {
        self.high.wf() && self.low.wf() && self.precipitation.wf()
    }
}

/// Where the time-series reply keeps column `column` of its newest row:
/// `results[0].series[0].values[0][column]`.
pub open spec fn series_path(column: usize) -> Seq<Step> {
    seq![
        Step::Key("results"),
        Step::Index(0),
        Step::Key("series"),
        Step::Index(0),
        Step::Key("values"),
        Step::Index(0),
        Step::Index(column),
    ]
}

/// Columns of the time-series row: time, temperature, pressure, humidity.
pub const TEMPERATURE_COLUMN: usize = 1;
pub const PRESSURE_COLUMN: usize = 2;
pub const HUMIDITY_COLUMN: usize = 3;

/// Where the weather reply keeps a current condition: `current.<field>`.
pub open spec fn current_path(field: &'static str) -> Seq<Step> {
    seq![Step::Key("current"), Step::Key(field)]
}

/// Where the weather reply keeps today's entry, followed by `rest`.
pub open spec fn today_path(rest: Seq<Step>) -> Seq<Step> {
    seq![Step::Key("daily"), Step::Index(0)] + rest
}

pub open spec fn indoor_spec(series: Doc) -> ClimateReading {
    ClimateReading {
        temperature: number_at(series, series_path(TEMPERATURE_COLUMN)),
        humidity: number_at(series, series_path(HUMIDITY_COLUMN)),
        pressure: number_at(series, series_path(PRESSURE_COLUMN)),
    }
}

pub open spec fn outdoor_spec(weather: Doc) -> ClimateReading {
    ClimateReading {
        temperature: number_at(weather, current_path("feels_like")),
        humidity: number_at(weather, current_path("humidity")),
        pressure: number_at(weather, current_path("pressure")),
    }
}

pub open spec fn forecast_high_path() -> Seq<Step> {
    today_path(seq![Step::Key("temp"), Step::Key("max")])
}

pub open spec fn forecast_low_path() -> Seq<Step> {
    today_path(seq![Step::Key("temp"), Step::Key("min")])
}

pub open spec fn forecast_pop_path() -> Seq<Step> {
    today_path(seq![Step::Key("pop")])
}

pub open spec fn forecast_description_path() -> Seq<Step> {
    today_path(seq![Step::Key("weather"), Step::Index(0), Step::Key("description")])
}

fn series_path_exec(column: usize) -> (r: Vec<Step>)
    ensures
        r@ == series_path(column),
{
    let r = vec![
        Step::Key("results"),
        Step::Index(0),
        Step::Key("series"),
        Step::Index(0),
        Step::Key("values"),
        Step::Index(0),
        Step::Index(column),
    ];
    assert(r@ =~= series_path(column));
    r
}

fn current_path_exec(field: &'static str) -> (r: Vec<Step>)
    ensures
        r@ == current_path(field),
{
    let r = vec![Step::Key("current"), Step::Key(field)];
    assert(r@ =~= current_path(field));
    r
}

/// The indoor reading in a time-series reply; absent fields read as zero.
pub fn indoor_from(series: &Doc) -> (r: ClimateReading)
    ensures
        r == indoor_spec(*series),
        r.wf(),
{
    ClimateReading {
        temperature: series.number_at(&series_path_exec(TEMPERATURE_COLUMN)),
        humidity: series.number_at(&series_path_exec(HUMIDITY_COLUMN)),
        pressure: series.number_at(&series_path_exec(PRESSURE_COLUMN)),
    }
}

/// The outdoor reading (the felt temperature) in a weather reply; absent
/// fields read as zero.
pub fn outdoor_from(weather: &Doc) -> (r: ClimateReading)
    ensures
        r == outdoor_spec(*weather),
        r.wf(),
{
    ClimateReading {
        temperature: weather.number_at(&current_path_exec("feels_like")),
        humidity: weather.number_at(&current_path_exec("humidity")),
        pressure: weather.number_at(&current_path_exec("pressure")),
    }
}

/// Today's forecast in a weather reply; absent numbers read as zero and an
/// absent description as the empty text.
pub fn forecast_from(weather: &Doc) -> (r: ForecastSummary)
    ensures
        r.high == number_at(*weather, forecast_high_path()),
        r.low == number_at(*weather, forecast_low_path()),
        r.precipitation == number_at(*weather, forecast_pop_path()),
        r.description@ == text_at(*weather, forecast_description_path()),
        r.wf(),
{
    let high_path = vec![Step::Key("daily"), Step::Index(0), Step::Key("temp"), Step::Key("max")];
    assert(high_path@ =~= forecast_high_path());
    let low_path = vec![Step::Key("daily"), Step::Index(0), Step::Key("temp"), Step::Key("min")];
    assert(low_path@ =~= forecast_low_path());
    let pop_path = vec![Step::Key("daily"), Step::Index(0), Step::Key("pop")];
    assert(pop_path@ =~= forecast_pop_path());
    let description_path = vec![
        Step::Key("daily"),
        Step::Index(0),
        Step::Key("weather"),
        Step::Index(0),
        Step::Key("description"),
    ];
    assert(description_path@ =~= forecast_description_path());
    ForecastSummary {
        high: weather.number_at(&high_path),
        low: weather.number_at(&low_path),
        description: weather.text_at(&description_path),
        precipitation: weather.number_at(&pop_path),
    }
}

/// All three readings from the two replies. Never fails: a missing field
/// only takes its default.
pub fn normalize(series: &Doc, weather: &Doc) -> (r: Readings)
    ensures
        r.indoor == indoor_spec(*series),
        r.outdoor == outdoor_spec(*weather),
        r.forecast.high == number_at(*weather, forecast_high_path()),
        r.forecast.low == number_at(*weather, forecast_low_path()),
        r.forecast.precipitation == number_at(*weather, forecast_pop_path()),
        r.forecast.description@ == text_at(*weather, forecast_description_path()),
        r.indoor.wf(),
        r.outdoor.wf(),
        r.forecast.wf(),
{
    Readings {
        indoor: indoor_from(series),
        outdoor: outdoor_from(weather),
        forecast: forecast_from(weather),
    }
}

/// Combines the outcomes of the two transport calls: the cycle fails exactly
/// when one of them failed (the time-series one is reported first), and
/// otherwise yields the normalised readings.
pub fn acquire(series: Result<Doc, Oops>, weather: Result<Doc, Oops>) -> (r: Result<Readings, Oops>)
    ensures
        r is Ok <==> (series is Ok && weather is Ok),
        series is Err ==> r == Err::<Readings, Oops>(series->Err_0),
        series is Ok && weather is Err ==> r == Err::<Readings, Oops>(weather->Err_0),
        series is Ok && weather is Ok ==> ({
            let readings = r->Ok_0;
            &&& readings.indoor == indoor_spec(series->Ok_0)
            &&& readings.outdoor == outdoor_spec(weather->Ok_0)
            &&& readings.forecast.high == number_at(weather->Ok_0, forecast_high_path())
            &&& readings.forecast.low == number_at(weather->Ok_0, forecast_low_path())
            &&& readings.forecast.precipitation == number_at(weather->Ok_0, forecast_pop_path())
            &&& readings.forecast.description@ == text_at(weather->Ok_0, forecast_description_path())
        }),
{
    match series {
        Err(e) => Err(e),
        Ok(s) => match weather {
            Err(e) => Err(e),
            Ok(w) => Ok(normalize(&s, &w)),
        },
    }
}

} // verus!
