//! The data model: raw input rows, validated projects, and report rows.
//!
//! Money is held in hundredths of a unit, coordinates in millionths of a
//! degree, dates as day numbers, and every two-decimal statistic in
//! hundredths. Each executable type has a ghost model (its view) over which
//! the contracts speak.
use vstd::prelude::*;
use crate::parse::{MONEY_CAP, COORD_CAP};
use crate::dates::DAY_MAG_CAP;

verus! {

/// Most records the engine accepts in one batch; keeps every aggregate
/// within exact 128-bit arithmetic.
pub const MAX_RECORDS: usize = 1_000_000_000;

/// A raw input row, exactly as read from the source table.
#[derive(Clone, Debug, PartialEq)]
pub struct RawRecord {
    pub main_island: String,
    pub region: String,
    pub province: String,
    pub project_id: String,
    pub project_name: String,
    pub type_of_work: String,
    pub funding_year: Option<u32>,
    pub contract_id: String,
    pub approved_budget_for_contract: String,
    pub contract_cost: String,
    pub actual_completion_date: String,
    pub contractor: String,
    pub start_date: String,
    pub project_latitude: String,
    pub project_longitude: String,
    pub provincial_capital: String,
    pub provincial_capital_latitude: String,
    pub provincial_capital_longitude: String,
}

/// Model of a raw row.
pub ghost struct RawRec {
    pub main_island: Seq<char>,
    pub region: Seq<char>,
    pub province: Seq<char>,
    pub project_id: Seq<char>,
    pub project_name: Seq<char>,
    pub type_of_work: Seq<char>,
    pub funding_year: Option<u32>,
    pub contract_id: Seq<char>,
    pub approved_budget_for_contract: Seq<char>,
    pub contract_cost: Seq<char>,
    pub actual_completion_date: Seq<char>,
    pub contractor: Seq<char>,
    pub start_date: Seq<char>,
    pub project_latitude: Seq<char>,
    pub project_longitude: Seq<char>,
    pub provincial_capital: Seq<char>,
    pub provincial_capital_latitude: Seq<char>,
    pub provincial_capital_longitude: Seq<char>,
}

impl View for RawRecord {
    type V = RawRec;

    open spec fn view(&self) -> RawRec {
        RawRec {
            main_island: self.main_island@,
            region: self.region@,
            province: self.province@,
            project_id: self.project_id@,
            project_name: self.project_name@,
            type_of_work: self.type_of_work@,
            funding_year: self.funding_year,
            contract_id: self.contract_id@,
            approved_budget_for_contract: self.approved_budget_for_contract@,
            contract_cost: self.contract_cost@,
            actual_completion_date: self.actual_completion_date@,
            contractor: self.contractor@,
            start_date: self.start_date@,
            project_latitude: self.project_latitude@,
            project_longitude: self.project_longitude@,
            provincial_capital: self.provincial_capital@,
            provincial_capital_latitude: self.provincial_capital_latitude@,
            provincial_capital_longitude: self.provincial_capital_longitude@,
        }
    }
}

impl DeepView for RawRecord {
    type V = RawRec;

    open spec fn deep_view(&self) -> RawRec {
        self.view()
    }
}

/// A validated project entity; immutable once constructed.
#[derive(Clone, Debug, PartialEq)]
pub struct Project {
    pub main_island: String,
    pub region: String,
    pub province: String,
    pub project_id: String,
    pub project_name: String,
    pub type_of_work: String,
    pub funding_year: u32,
    pub contract_id: String,
    /// Approved budget, in hundredths of a unit.
    pub approved_budget: i64,
    /// Contract cost, in hundredths of a unit.
    pub contract_cost: i64,
    /// Day number of the actual completion date.
    pub completion_day: i64,
    /// Day number of the start date.
    pub start_day: i64,
    pub contractor: String,
    /// Latitude, in millionths of a degree.
    pub latitude: i64,
    /// Longitude, in millionths of a degree.
    pub longitude: i64,
    /// Approved budget minus contract cost, in hundredths.
    pub cost_savings: i64,
    /// Signed day difference from start to completion.
    pub completion_delay_days: i64,
}

/// Model of a validated project.
pub ghost struct Proj {
    pub main_island: Seq<char>,
    pub region: Seq<char>,
    pub province: Seq<char>,
    pub project_id: Seq<char>,
    pub project_name: Seq<char>,
    pub type_of_work: Seq<char>,
    pub funding_year: u32,
    pub contract_id: Seq<char>,
    pub approved_budget: i64,
    pub contract_cost: i64,
    pub completion_day: i64,
    pub start_day: i64,
    pub contractor: Seq<char>,
    pub latitude: i64,
    pub longitude: i64,
    pub cost_savings: i64,
    pub completion_delay_days: i64,
}

impl View for Project {
    type V = Proj;

    open spec fn view(&self) -> Proj {
        Proj {
            main_island: self.main_island@,
            region: self.region@,
            province: self.province@,
            project_id: self.project_id@,
            project_name: self.project_name@,
            type_of_work: self.type_of_work@,
            funding_year: self.funding_year,
            contract_id: self.contract_id@,
            approved_budget: self.approved_budget,
            contract_cost: self.contract_cost,
            completion_day: self.completion_day,
            start_day: self.start_day,
            contractor: self.contractor@,
            latitude: self.latitude,
            longitude: self.longitude,
            cost_savings: self.cost_savings,
            completion_delay_days: self.completion_delay_days,
        }
    }
}

impl DeepView for Project {
    type V = Proj;

    open spec fn deep_view(&self) -> Proj {
        self.view()
    }
}

/// Every validated project satisfies this: the funding year lies in the
/// engine's window, both money amounts are positive and capped, the savings
/// and delay are the stated differences, and the resolved coordinates are
/// non-zero (so in particular not the pair (0, 0)).
pub open spec fn valid_project(p: Proj) -> bool {
    &&& 2021 <= p.funding_year <= 2023
    &&& 0 < p.approved_budget <= MONEY_CAP
    &&& 0 < p.contract_cost <= MONEY_CAP
    &&& p.cost_savings == p.approved_budget - p.contract_cost
    &&& -DAY_MAG_CAP <= p.start_day <= DAY_MAG_CAP
    &&& -DAY_MAG_CAP <= p.completion_day <= DAY_MAG_CAP
    &&& p.completion_delay_days == p.completion_day - p.start_day
    &&& p.latitude != 0
    &&& p.longitude != 0
    &&& -COORD_CAP <= p.latitude <= COORD_CAP
    &&& -COORD_CAP <= p.longitude <= COORD_CAP
}

/// A batch of project models the aggregators accept: bounded in number,
/// every entry valid.
pub open spec fn valid_batch(s: Seq<Proj>) -> bool {
    &&& s.len() <= MAX_RECORDS
    &&& forall|i: int| 0 <= i < s.len() ==> valid_project(s[i])
}

/// One row of the regional efficiency report.
#[derive(Clone, Debug, PartialEq)]
pub struct RegionalStats {
    pub region: String,
    pub main_island: String,
    /// Sum of approved budgets, in hundredths.
    pub total_budget: i128,
    /// Twice the median of cost savings, in hundredths (doubled so the
    /// midpoint of an even-sized group stays exact).
    pub median_savings_doubled: i64,
    /// Mean completion delay, in hundredths of a day.
    pub avg_delay: i64,
    /// Share of projects with delay over 30 days, in hundredths of a percent.
    pub high_delay_pct: i64,
    /// Normalized efficiency score, in hundredths (0 to 10000).
    pub efficiency_score: i128,
}

/// Model of a regional report row.
pub ghost struct RegionalRow {
    pub region: Seq<char>,
    pub main_island: Seq<char>,
    pub total_budget: int,
    pub median_savings_doubled: int,
    pub avg_delay: int,
    pub high_delay_pct: int,
    pub efficiency_score: int,
}

impl View for RegionalStats {
    type V = RegionalRow;

    open spec fn view(&self) -> RegionalRow {
        RegionalRow {
            region: self.region@,
            main_island: self.main_island@,
            total_budget: self.total_budget as int,
            median_savings_doubled: self.median_savings_doubled as int,
            avg_delay: self.avg_delay as int,
            high_delay_pct: self.high_delay_pct as int,
            efficiency_score: self.efficiency_score as int,
        }
    }
}

impl DeepView for RegionalStats {
    type V = RegionalRow;

    open spec fn deep_view(&self) -> RegionalRow {
        self.view()
    }
}

/// Risk classification of a contractor.
#[derive(Clone, Copy, Debug, PartialEq, Eq, Structural)]
pub enum RiskFlag {
    High,
    Low,
}

/// One row of the contractor reliability report.
#[derive(Clone, Debug, PartialEq)]
pub struct ContractorStats {
    pub contractor: String,
    pub project_count: usize,
    /// Sum of contract costs, in hundredths.
    pub total_contract_cost: i128,
    /// Mean completion delay, in hundredths of a day.
    pub avg_completion_delay_days: i64,
    /// Sum of cost savings, in hundredths.
    pub total_cost_savings: i128,
    /// Reliability index, in hundredths.
    pub reliability_index: i128,
    pub risk_flag: RiskFlag,
}

/// Model of a contractor report row.
pub ghost struct ContractorRow {
    pub contractor: Seq<char>,
    pub project_count: int,
    pub total_contract_cost: int,
    pub avg_completion_delay_days: int,
    pub total_cost_savings: int,
    pub reliability_index: int,
    pub risk_flag: RiskFlag,
}

impl View for ContractorStats {
    type V = ContractorRow;

    open spec fn view(&self) -> ContractorRow {
        ContractorRow {
            contractor: self.contractor@,
            project_count: self.project_count as int,
            total_contract_cost: self.total_contract_cost as int,
            avg_completion_delay_days: self.avg_completion_delay_days as int,
            total_cost_savings: self.total_cost_savings as int,
            reliability_index: self.reliability_index as int,
            risk_flag: self.risk_flag,
        }
    }
}

impl DeepView for ContractorStats {
    type V = ContractorRow;

    open spec fn deep_view(&self) -> ContractorRow {
        self.view()
    }
}

/// One row of the cost-overrun trend report.
#[derive(Clone, Debug, PartialEq)]
pub struct CostOverrunStats {
    pub funding_year: u32,
    pub type_of_work: String,
    pub total_projects: usize,
    /// Mean cost savings, in hundredths.
    pub avg_cost_savings: i64,
    /// Share of projects with negative savings, in hundredths of a percent.
    pub overrun_rate: i64,
    /// Change of mean savings against the prior adjacent year, in hundredths
    /// of a percent.
    pub yoy_change: i128,
}

/// Model of a cost-overrun trend row.
pub ghost struct CostRow {
    pub funding_year: u32,
    pub type_of_work: Seq<char>,
    pub total_projects: int,
    pub avg_cost_savings: int,
    pub overrun_rate: int,
    pub yoy_change: int,
}

impl View for CostOverrunStats {
    type V = CostRow;

    open spec fn view(&self) -> CostRow {
        CostRow {
            funding_year: self.funding_year,
            type_of_work: self.type_of_work@,
            total_projects: self.total_projects as int,
            avg_cost_savings: self.avg_cost_savings as int,
            overrun_rate: self.overrun_rate as int,
            yoy_change: self.yoy_change as int,
        }
    }
}

impl DeepView for CostOverrunStats {
    type V = CostRow;

    open spec fn deep_view(&self) -> CostRow {
        self.view()
    }
}

/// The corpus-wide digest.
#[derive(Clone, Debug, PartialEq)]
pub struct Summary {
    pub total_projects: usize,
    pub total_contractors: usize,
    pub total_provinces: usize,
    pub total_regions: usize,
    /// Mean completion delay over all projects, in hundredths of a day.
    pub global_average_delay_days: i64,
    /// Sum of cost savings, in hundredths.
    pub total_savings: i128,
    /// Sum of contract costs, in hundredths. Note the naming: this total is
    /// taken over contract cost, not over approved budget.
    pub total_budget: i128,
    pub date_range: String,
}

/// Model of the digest.
pub ghost struct SummaryV {
    pub total_projects: int,
    pub total_contractors: int,
    pub total_provinces: int,
    pub total_regions: int,
    pub global_average_delay_days: int,
    pub total_savings: int,
    pub total_budget: int,
    pub date_range: Seq<char>,
}

impl View for Summary {
    type V = SummaryV;

    open spec fn view(&self) -> SummaryV {
        SummaryV {
            total_projects: self.total_projects as int,
            total_contractors: self.total_contractors as int,
            total_provinces: self.total_provinces as int,
            total_regions: self.total_regions as int,
            global_average_delay_days: self.global_average_delay_days as int,
            total_savings: self.total_savings as int,
            total_budget: self.total_budget as int,
            date_range: self.date_range@,
        }
    }
}

} // verus!
