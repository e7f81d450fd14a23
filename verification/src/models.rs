//! Rows read from MySQL and documents written to Elasticsearch.
use vstd::prelude::*;
use rust_decimal::Decimal;
use chrono::NaiveDateTime;
use std::collections::HashMap;

verus! {

/// An exact decimal number as MySQL's `DECIMAL` columns hold it; carried through unchanged.
#[verifier::external_type_specification]
#[verifier::external_body]
pub struct ExDecimal(Decimal);

/// A date and time without time zone; carried through unchanged.
#[verifier::external_type_specification]
#[verifier::external_body]
pub struct ExNaiveDateTime(NaiveDateTime);

/// One auto-completion document: a keyword, its initials and its weight.
#[derive(Debug, Clone, PartialEq)]
pub struct AutoComplete {
    pub name: String,
    pub name_chosung: String,
    pub keyword_weight: i32,
}

impl AutoComplete {
    pub fn new(name: String, name_chosung: String, keyword_weight: i32) -> (res: AutoComplete)
        ensures
            res.name == name,
            res.name_chosung == name_chosung,
            res.keyword_weight == keyword_weight,
    {
        AutoComplete { name, name_chosung, keyword_weight }
    }
}

/// One row of the auto-search keyword table.
#[derive(Debug, Clone, PartialEq)]
pub struct AutoSearchKeyword {
    pub keyword: String,
    pub keyword_weight: i32,
}

impl AutoSearchKeyword {
    pub fn new(keyword: String, keyword_weight: i32) -> (res: AutoSearchKeyword)
        ensures
            res.keyword == keyword,
            res.keyword_weight == keyword_weight,
    {
        AutoSearchKeyword { keyword, keyword_weight }
    }
}

/// One row of the `store` table.
#[derive(Debug, PartialEq)]
pub struct Store {
    pub seq: i32,
    pub name: String,
    pub address: String,
    pub lat: Decimal,
    pub lng: Decimal,
    pub reg_dt: NaiveDateTime,
    pub chg_dt: NaiveDateTime,
    pub reg_id: String,
    pub chg_id: String,
}

/// A store's number and name, for auto-completion.
#[derive(Debug, Clone, PartialEq)]
pub struct StoreAutoComplete {
    pub seq: i32,
    pub name: String,
}

/// A store with its major and sub classification.
#[derive(Debug, Clone, Copy, PartialEq, Eq, Structural)]
pub struct StoreTypesResult {
    pub seq: i32,
    pub major_type: i32,
    pub sub_type: i32,
}

/// Stores grouped by major and by sub classification.
#[derive(Debug, Clone, PartialEq)]
pub struct StoreTypesMap {
    pub store_type_major_map: HashMap<i32, Vec<i32>>,
    pub store_type_sub_map: HashMap<i32, Vec<i32>>,
}

impl StoreTypesMap {
    pub fn new(
        store_type_major_map: HashMap<i32, Vec<i32>>,
        store_type_sub_map: HashMap<i32, Vec<i32>>,
    ) -> (res: StoreTypesMap)
        ensures
            res.store_type_major_map == store_type_major_map,
            res.store_type_sub_map == store_type_sub_map,
    {
        StoreTypesMap { store_type_major_map, store_type_sub_map }
    }
}

/// One joined row of a store query: a store with its location, category and at most one
/// recommendation. A store with several recommendations comes as several rows.
#[derive(Debug, PartialEq)]
pub struct StoreResult {
    pub seq: i32,
    pub name: String,
    pub store_type: Option<String>,
    pub address: Option<String>,
    pub road_address: Option<String>,
    pub lat: Decimal,
    pub lng: Decimal,
    pub zero_possible: bool,
    pub recommend_name: Option<String>,
    pub tel: Option<String>,
    pub url: Option<String>,
    pub category_group_name: String,
    pub category_group_code: String,
    pub category_name: String,
    pub category_icon: Option<String>,
    /// The average rating, as the bit pattern of the `f64` that the database returned.
    pub avg_rating_bits: Option<u64>,
    pub review_count: Option<i64>,
}

/// One store document for the search index: the rows of one store merged into one.
/// The geographic point built from `lat` and `lng` is added where the document is serialised.
#[derive(Debug, PartialEq)]
pub struct DistinctStoreResult {
    pub timestamp: String,
    pub seq: i32,
    pub name: String,
    pub store_type: Option<String>,
    pub address: Option<String>,
    pub road_address: Option<String>,
    pub lat: Decimal,
    pub lng: Decimal,
    pub zero_possible: bool,
    pub recommend_names: Vec<String>,
    pub tel: Option<String>,
    pub url: Option<String>,
    pub category_group_name: String,
    pub category_group_code: String,
    pub category_name: String,
    pub category_icon: Option<String>,
    /// The average rating, as the bit pattern of an `f64`.
    pub avg_rating_bits: Option<u64>,
    pub review_count: Option<i64>,
}

/// One subway station row.
#[derive(Debug, PartialEq)]
pub struct SubwayInfo {
    pub seq: i32,
    pub subway_line: String,
    pub station_name: String,
    pub station_eng_name: String,
    pub lat: Decimal,
    pub lng: Decimal,
    pub station_load_addr: String,
}

/// One subway station document for the search index. The geographic point built from
/// `lat` and `lng` is added where the document is serialised.
#[derive(Debug, PartialEq)]
pub struct SubwayInfoEs {
    pub seq: i32,
    pub subway_line: String,
    pub station_name: String,
    pub station_eng_name: String,
    pub station_load_addr: String,
    pub lat: Decimal,
    pub lng: Decimal,
}

impl SubwayInfo {
    /// The document for this station: every field copied.
    pub fn to_es(&self) -> (res: SubwayInfoEs)
        ensures
            res.seq == self.seq,
            res.subway_line == self.subway_line,
            res.station_name == self.station_name,
            res.station_eng_name == self.station_eng_name,
            res.station_load_addr == self.station_load_addr,
            res.lat == self.lat,
            res.lng == self.lng,
    {
        SubwayInfoEs {
            seq: self.seq,
            subway_line: self.subway_line.clone(),
            station_name: self.station_name.clone(),
            station_eng_name: self.station_eng_name.clone(),
            station_load_addr: self.station_load_addr.clone(),
            lat: self.lat,
            lng: self.lng,
        }
    }
}

} // verus!
