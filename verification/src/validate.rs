//! Record validation and cleaning.
//!
//! The raw record stream is consumed once, in order. The first time a
//! province is seen, its capital's coordinates are cached (first-seen, never
//! updated); each record is then validated: funding year in the window,
//! both dates parseable, both money amounts positive, and a non-zero
//! coordinate pair resolved either from the record or from the province
//! cache. Failing records are dropped and counted.
use vstd::prelude::*;
use crate::dates::{date_value, parse_date_days};
use crate::model::{valid_batch, valid_project, Proj, Project, RawRec, RawRecord, MAX_RECORDS};
use crate::parse::{
    lemma_decimal_bounds, parse_budget, parse_coordinate, spec_parse_budget,
    spec_parse_coordinate, COORD_CAP, MONEY_CAP,
};
use vstd::utf8::encode_utf8;

verus! {

/// One cached fallback coordinate pair for a province.
pub struct FallbackEntry {
    pub province: String,
    /// Latitude of the provincial capital, in millionths of a degree.
    pub latitude: i64,
    /// Longitude of the provincial capital, in millionths of a degree.
    pub longitude: i64,
}

/// Model of a fallback entry.
pub ghost struct FbEntry {
    pub province: Seq<char>,
    pub latitude: i64,
    pub longitude: i64,
}

impl View for FallbackEntry {
    type V = FbEntry;

    open spec fn view(&self) -> FbEntry {
        FbEntry { province: self.province@, latitude: self.latitude, longitude: self.longitude }
    }
}

impl DeepView for FallbackEntry {
    type V = FbEntry;

    open spec fn deep_view(&self) -> FbEntry {
        self.view()
    }
}

/// The finalized province-to-coordinates lookup built during ingestion.
pub struct CoordIndex {
    pub entries: Vec<FallbackEntry>,
}

impl View for CoordIndex {
    type V = Seq<FbEntry>;

    open spec fn view(&self) -> Seq<FbEntry> {
        self.entries.deep_view()
    }
}

/// Whether some entry already caches this province.
pub open spec fn spec_has_province(entries: Seq<FbEntry>, prov: Seq<char>) -> bool {
    exists|i: int| 0 <= i < entries.len() && entries[i].province == prov
}

/// The coordinates the index resolves for a province: the first matching
/// entry, or (0, 0) when the province is unknown.
pub open spec fn spec_lookup(entries: Seq<FbEntry>, prov: Seq<char>) -> (i64, i64)
    decreases entries.len(),
{
    if entries.len() == 0 {
        (0i64, 0i64)
    } else if entries[0].province == prov {
        (entries[0].latitude, entries[0].longitude)
    } else {
        spec_lookup(entries.drop_first(), prov)
    }
}

/// All cached coordinates stay within the parser's cap.
pub open spec fn index_wf(entries: Seq<FbEntry>) -> bool {
    forall|i: int|
        0 <= i < entries.len() ==> -COORD_CAP <= #[trigger] entries[i].latitude <= COORD_CAP
            && -COORD_CAP <= entries[i].longitude <= COORD_CAP
}

/// A well-formed index only resolves capped coordinates.
proof fn lemma_lookup_wf(entries: Seq<FbEntry>, prov: Seq<char>)
    requires
        index_wf(entries),
    ensures
        -COORD_CAP <= spec_lookup(entries, prov).0 <= COORD_CAP,
        -COORD_CAP <= spec_lookup(entries, prov).1 <= COORD_CAP,
    decreases entries.len(),
{
    if entries.len() > 0 {
        assert(-COORD_CAP <= entries[0].latitude <= COORD_CAP);
        if entries[0].province != prov {
            assert forall|i: int|
                0 <= i < entries.drop_first().len() implies -COORD_CAP <= #[trigger] entries.drop_first()[i].latitude
                <= COORD_CAP && -COORD_CAP <= entries.drop_first()[i].longitude <= COORD_CAP by {
                assert(entries.drop_first()[i] == entries[i + 1]);
            }
            lemma_lookup_wf(entries.drop_first(), prov);
        }
    }
}

proof fn lemma_spec_lookup_skip(entries: Seq<FbEntry>, prov: Seq<char>, i: int)
    requires
        0 <= i <= entries.len(),
        forall|j: int| 0 <= j < i ==> entries[j].province != prov,
    ensures
        spec_lookup(entries, prov) == spec_lookup(entries.skip(i), prov),
    decreases i,
{
    if i > 0 {
        assert(entries[0].province != prov);
        assert forall|j: int| 0 <= j < i - 1 implies entries.drop_first()[j].province != prov by {
            assert(entries.drop_first()[j] == entries[j + 1]);
        }
        lemma_spec_lookup_skip(entries.drop_first(), prov, i - 1);
        assert(entries.drop_first().skip(i - 1) =~= entries.skip(i));
    } else {
        assert(entries.skip(0) =~= entries);
    }
}

impl CoordIndex {
    /// An empty index.
    pub fn new() -> (r: CoordIndex)
        ensures
            r@ =~= Seq::<FbEntry>::empty(),
    {
        CoordIndex { entries: Vec::new() }
    }

    /// Whether the province is already cached.
    pub fn has_province(&self, prov: &String) -> (r: bool)
        ensures
            r == spec_has_province(self@, prov@),
    {
        let mut i: usize = 0;
        while i < self.entries.len()
            invariant
                i <= self.entries.len(),
                forall|j: int| 0 <= j < i ==> self@[j].province != prov@,
            decreases self.entries.len() - i,
        {
            if self.entries[i].province == *prov {
                assert(self@[i as int].province == prov@);
                return true;
            }
            i = i + 1;
        }
        false
    }

    /// Resolves the fallback pair for a province.
    pub fn lookup(&self, prov: &String) -> (r: (i64, i64))
        ensures
            r == spec_lookup(self@, prov@),
    {
        let mut i: usize = 0;
        while i < self.entries.len()
            invariant
                i <= self.entries.len(),
                forall|j: int| 0 <= j < i ==> self@[j].province != prov@,
            decreases self.entries.len() - i,
        {
            proof {
                lemma_spec_lookup_skip(self@, prov@, i as int);
            }
            if self.entries[i].province == *prov {
                assert(self@.skip(i as int)[0] == self@[i as int]);
                return (self.entries[i].latitude, self.entries[i].longitude);
            }
            i = i + 1;
        }
        proof {
            lemma_spec_lookup_skip(self@, prov@, i as int);
            assert(self@.skip(i as int).len() == 0);
        }
        (0, 0)
    }
}

/// The coordinate cached for a capital field: the parsed value, or 0 when
/// the field does not parse.
pub open spec fn spec_capital_coord(s: Seq<char>) -> i64 {
    match spec_parse_coordinate(s) {
        Some(v) => v as i64,
        None => 0i64,
    }
}

/// What validation makes of one raw record against a finalized index:
/// the checks run in order (year window, both dates, both money amounts,
/// resolved coordinates) and the first failure drops the record.
pub open spec fn spec_clean(r: RawRec, entries: Seq<FbEntry>) -> Option<Proj> {
    if !(r.funding_year matches Some(y) && 2021 <= y <= 2023) {
        None
    } else if date_value(r.start_date) is None || date_value(r.actual_completion_date) is None {
        None
    } else if !(spec_parse_budget(r.approved_budget_for_contract) matches Some(ab) && ab > 0) {
        None
    } else if !(spec_parse_budget(r.contract_cost) matches Some(cc) && cc > 0) {
        None
    } else {
        let sd = date_value(r.start_date).unwrap();
        let ed = date_value(r.actual_completion_date).unwrap();
        let ab = spec_parse_budget(r.approved_budget_for_contract).unwrap();
        let cc = spec_parse_budget(r.contract_cost).unwrap();
        let fb = spec_lookup(entries, r.province);
        let lat = if spec_parse_coordinate(r.project_latitude) matches Some(v) && v != 0 {
            spec_parse_coordinate(r.project_latitude).unwrap() as i64
        } else {
            fb.0
        };
        let lon = if spec_parse_coordinate(r.project_longitude) matches Some(v) && v != 0 {
            spec_parse_coordinate(r.project_longitude).unwrap() as i64
        } else {
            fb.1
        };
        if lat == 0 || lon == 0 {
            None
        } else {
            Some(
                Proj {
                    main_island: r.main_island,
                    region: r.region,
                    province: r.province,
                    project_id: r.project_id,
                    project_name: r.project_name,
                    type_of_work: r.type_of_work,
                    funding_year: r.funding_year.unwrap(),
                    contract_id: r.contract_id,
                    approved_budget: ab as i64,
                    contract_cost: cc as i64,
                    completion_day: ed as i64,
                    start_day: sd as i64,
                    contractor: r.contractor,
                    latitude: lat,
                    longitude: lon,
                    cost_savings: (ab - cc) as i64,
                    completion_delay_days: (ed - sd) as i64,
                },
            )
        }
    }
}

/// Validates one raw record against the finalized index.
///
/// The result is pinned to [`spec_clean`]; a retained project additionally
/// satisfies [`valid_project`], its savings are exactly the budget minus the
/// cost, and its delay is exactly the signed day difference between the
/// completion and start dates.
pub fn clean_project(raw: &RawRecord, index: &CoordIndex) -> (res: Option<Project>)
    requires
        index_wf(index@),
    ensures
        (res is Some) == (spec_clean(raw@, index@) is Some),
        res matches Some(p) ==> spec_clean(raw@, index@) == Some(p@),
        res matches Some(p) ==> valid_project(p@),
        res matches Some(p) ==> p@.cost_savings == p@.approved_budget - p@.contract_cost,
        res matches Some(p) ==> Some(p@.start_day as int) == date_value(raw@.start_date) && Some(
            p@.completion_day as int,
        ) == date_value(raw@.actual_completion_date) && p@.completion_delay_days == p@.completion_day
            - p@.start_day,
{
    let year: u32 = match raw.funding_year {
        Some(y) if 2021 <= y && y <= 2023 => y,
        _ => {
            return None;
        },
    };
    let start_day = match parse_date_days(raw.start_date.as_str()) {
        Some(d) => d,
        None => {
            return None;
        },
    };
    let completion_day = match parse_date_days(raw.actual_completion_date.as_str()) {
        Some(d) => d,
        None => {
            return None;
        },
    };
    let approved_budget = match parse_budget(raw.approved_budget_for_contract.as_str()) {
        Some(v) if v > 0 => v,
        _ => {
            return None;
        },
    };
    let contract_cost = match parse_budget(raw.contract_cost.as_str()) {
        Some(v) if v > 0 => v,
        _ => {
            return None;
        },
    };
    proof {
        lemma_decimal_bounds(encode_utf8(raw@.approved_budget_for_contract), 2, MONEY_CAP as int);
        lemma_decimal_bounds(encode_utf8(raw@.contract_cost), 2, MONEY_CAP as int);
    }
    let fb = index.lookup(&raw.province);
    let latitude = match parse_coordinate(raw.project_latitude.as_str()) {
        Some(v) if v != 0 => {
            proof {
                lemma_decimal_bounds(encode_utf8(raw@.project_latitude), 6, COORD_CAP as int);
            }
            v
        },
        _ => fb.0,
    };
    let longitude = match parse_coordinate(raw.project_longitude.as_str()) {
        Some(v) if v != 0 => {
            proof {
                lemma_decimal_bounds(encode_utf8(raw@.project_longitude), 6, COORD_CAP as int);
            }
            v
        },
        _ => fb.1,
    };
    if latitude == 0 || longitude == 0 {
        return None;
    }
    proof {
        lemma_lookup_wf(index@, raw@.province);
    }
    Some(
        Project {
            main_island: raw.main_island.clone(),
            region: raw.region.clone(),
            province: raw.province.clone(),
            project_id: raw.project_id.clone(),
            project_name: raw.project_name.clone(),
            type_of_work: raw.type_of_work.clone(),
            funding_year: year,
            contract_id: raw.contract_id.clone(),
            approved_budget,
            contract_cost,
            completion_day,
            start_day,
            contractor: raw.contractor.clone(),
            latitude,
            longitude,
            cost_savings: approved_budget - contract_cost,
            completion_delay_days: completion_day - start_day,
        },
    )
}

/// The fallback entry a record contributes for its province.
pub open spec fn spec_new_entry(r: RawRec) -> FbEntry {
    FbEntry {
        province: r.province,
        latitude: spec_capital_coord(r.provincial_capital_latitude),
        longitude: spec_capital_coord(r.provincial_capital_longitude),
    }
}

/// What one scan of the raw stream produces: the finalized fallback index
/// and the validated projects, in input order. Each record first registers
/// its province (first seen wins) and is then validated against the index
/// as it stands, so a record may resolve through its own capital fields.
pub open spec fn spec_pipeline(rs: Seq<RawRec>) -> (Seq<FbEntry>, Seq<Proj>)
    decreases rs.len(),
{
    if rs.len() == 0 {
        (Seq::<FbEntry>::empty(), Seq::<Proj>::empty())
    } else {
        let prior = spec_pipeline(rs.drop_last());
        let r = rs.last();
        let entries = if spec_has_province(prior.0, r.province) {
            prior.0
        } else {
            prior.0.push(spec_new_entry(r))
        };
        match spec_clean(r, entries) {
            Some(p) => (entries, prior.1.push(p)),
            None => (entries, prior.1),
        }
    }
}

/// The validated projects of one scan of the raw stream.
pub open spec fn spec_clean_projects(rs: Seq<RawRec>) -> Seq<Proj> {
    spec_pipeline(rs).1
}

/// Consumes the raw record stream once, in order, building the fallback
/// index and the validated project collection; also reports how many rows
/// were seen and how many were kept.
pub fn clean_projects(records: &Vec<RawRecord>) -> (res: (Vec<Project>, usize, usize))
    requires
        records@.len() <= MAX_RECORDS,
    ensures
        res.0.deep_view() == spec_clean_projects(records.deep_view()),
        res.1 == records@.len(),
        res.2 == res.0@.len(),
        valid_batch(res.0.deep_view()),
{
    let mut index = CoordIndex::new();
    let mut projects: Vec<Project> = Vec::new();
    let mut i: usize = 0;
    while i < records.len()
        invariant
            i <= records@.len() <= MAX_RECORDS,
            index@ == spec_pipeline(records.deep_view().take(i as int)).0,
            projects.deep_view() == spec_pipeline(records.deep_view().take(i as int)).1,
            projects@.len() <= i,
            index_wf(index@),
            forall|j: int|
                0 <= j < projects.deep_view().len() ==> valid_project(
                    #[trigger] projects.deep_view()[j],
                ),
        decreases records@.len() - i,
    {
        let raw = &records[i];
        proof {
            assert(records.deep_view().take(i + 1).drop_last() =~= records.deep_view().take(
                i as int,
            ));
            assert(records.deep_view().take(i + 1).last() == records.deep_view()[i as int]);
        }
        if !index.has_province(&raw.province) {
            let cap_lat = match parse_coordinate(raw.provincial_capital_latitude.as_str()) {
                Some(v) => {
                    proof {
                        lemma_decimal_bounds(
                            encode_utf8(raw@.provincial_capital_latitude),
                            6,
                            COORD_CAP as int,
                        );
                    }
                    v
                },
                None => 0,
            };
            let cap_lon = match parse_coordinate(raw.provincial_capital_longitude.as_str()) {
                Some(v) => {
                    proof {
                        lemma_decimal_bounds(
                            encode_utf8(raw@.provincial_capital_longitude),
                            6,
                            COORD_CAP as int,
                        );
                    }
                    v
                },
                None => 0,
            };
            let ghost old_index = index@;
            index.entries.push(
                FallbackEntry {
                    province: raw.province.clone(),
                    latitude: cap_lat,
                    longitude: cap_lon,
                },
            );
            proof {
                assert(index@ =~= old_index.push(spec_new_entry(records.deep_view()[i as int])));
                assert forall|j: int|
                    0 <= j < index@.len() implies -COORD_CAP <= #[trigger] index@[j].latitude
                    <= COORD_CAP && -COORD_CAP <= index@[j].longitude <= COORD_CAP by {
                    if j < old_index.len() {
                        assert(index@[j] == old_index[j]);
                    }
                }
            }
        }
        let ghost old_projects = projects.deep_view();
        if let Some(p) = clean_project(raw, &index) {
            projects.push(p);
            proof {
                assert(projects.deep_view() =~= old_projects.push(p@));
            }
        }
        i = i + 1;
    }
    proof {
        assert(records.deep_view().take(i as int) =~= records.deep_view());
    }
    let seen = records.len();
    let kept = projects.len();
    (projects, seen, kept)
}

} // verus!
