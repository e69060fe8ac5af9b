use hermes_os::analytics::{
    analytics_days, empty_skills_json, float, get_analytics, get_models_analytics,
    parse_usage_timestamp_iso, skill_row, skills_analytics_from_usage_sidecar, usage_counts_fit,
    DailyUsage, ModelUsage, ModelsUsage, ProviderUsage, Usage, UsageTotals,
};
use hermes_os::value::{integer, text, Fields, Number, Value};

fn bits(f: f64) -> u64 {
    f.to_bits()
}

fn record(views: i64, uses: i64, patches: i64) -> Value {
    Fields::new()
        .with("view_count", integer(views))
        .with("use_count", integer(uses))
        .with("patch_count", integer(patches))
        .table()
}

fn totals() -> UsageTotals {
    UsageTotals {
        input: bits(1.0),
        output: bits(2.0),
        cache_read: bits(3.0),
        reasoning: bits(4.0),
        estimated_cost: bits(0.5),
        actual_cost: bits(0.25),
        sessions: 7,
        api_calls: bits(8.0),
    }
}

#[test]
fn the_period_is_a_day_to_a_leap_year() {
    assert_eq!(analytics_days(None), 30);
    assert_eq!(analytics_days(Some(0)), 1);
    assert_eq!(analytics_days(Some(7)), 7);
    assert_eq!(analytics_days(Some(1000)), 366);
}

#[test]
fn numbers_that_are_not_finite_are_null() {
    assert_eq!(float(bits(1.5)), Value::Number(Number::Float(bits(1.5))));
    assert_eq!(float(bits(-0.0)), Value::Number(Number::Float(bits(-0.0))));
    assert_eq!(float(bits(f64::MAX)), Value::Number(Number::Float(bits(f64::MAX))));
    assert_eq!(float(bits(f64::INFINITY)), Value::Null);
    assert_eq!(float(bits(f64::NEG_INFINITY)), Value::Null);
    assert_eq!(float(bits(f64::NAN)), Value::Null);
}

#[test]
fn times_are_read() {
    assert_eq!(parse_usage_timestamp_iso(" 1970-01-01T00:01:00Z "), Some(60));
    assert_eq!(parse_usage_timestamp_iso("2015-05-15T02:00:00+02:00"), Some(1431648000));
    assert_eq!(parse_usage_timestamp_iso("2015-05-15"), None);
    assert_eq!(parse_usage_timestamp_iso("  "), None);
}

#[test]
fn skills_are_ranked_by_their_totals() {
    let mut used = record(1, 1, 1);
    if let Value::Table(e) = &mut used {
        e.push((text("last_used_at"), text("1970-01-01T00:00:05Z")));
    }
    let usage = Fields::new()
        .with("a", record(0, 2, 0))
        .with("b", used)
        .with("c", record(2, 0, 0))
        .with("none", record(0, 0, 0))
        .with("odd", integer(5))
        .with("less", record(-5, 1, 1))
        .table();
    assert!(usage_counts_fit(Some(&usage)));
    let report = skills_analytics_from_usage_sidecar(Some(&usage));
    let summary = report.member("summary").unwrap();
    assert_eq!(summary.member("total_skill_loads"), Some(&integer(4)));
    assert_eq!(summary.member("total_skill_edits"), Some(&integer(2)));
    assert_eq!(summary.member("total_skill_actions"), Some(&integer(7)));
    assert_eq!(summary.member("distinct_skills_used"), Some(&integer(3)));
    let top = report.member("top_skills").unwrap().as_list().unwrap();
    let names: Vec<&str> = top.iter().map(|r| r.member_text("skill").unwrap()).collect();
    assert_eq!(names, vec!["b", "a", "c"]);
    assert_eq!(top[0].member("last_used_at"), Some(&Value::Number(Number::WholeFloat(5))));
    assert_eq!(top[1].member("last_used_at"), Some(&Value::Null));
    assert_eq!(top[0].member("manage_count"), Some(&integer(1)));
}

#[test]
fn fifty_skills_are_listed_and_only_those_are_added_up() {
    let mut fields = Fields::new();
    for i in 0..60 {
        fields = fields.with(&format!("s{i}"), record(0, i + 1, 0));
    }
    let usage = fields.table();
    let report = skills_analytics_from_usage_sidecar(Some(&usage));
    let top = report.member("top_skills").unwrap().as_list().unwrap();
    assert_eq!(top.len(), 50);
    assert_eq!(top[0].member("total_count"), Some(&integer(60)));
    assert_eq!(top[49].member("total_count"), Some(&integer(11)));
    let summary = report.member("summary").unwrap();
    assert_eq!(summary.member("distinct_skills_used"), Some(&integer(60)));
    assert_eq!(summary.member("total_skill_actions"), Some(&integer((11..=60).sum())));
    assert_eq!(summary.member("total_skill_loads"), Some(&integer((1..=60).sum())));
}

#[test]
fn only_the_totals_of_listed_skills_have_to_fit_together() {
    let each: i64 = 180861510526956388;
    let mut fields = Fields::new();
    for i in 0..51 {
        fields = fields.with(&format!("s{i}"), record(each, 0, 0));
    }
    let usage = fields.table();
    assert!(usage_counts_fit(Some(&usage)));
    let report = skills_analytics_from_usage_sidecar(Some(&usage));
    let summary = report.member("summary").unwrap();
    assert_eq!(summary.member("total_skill_actions"), Some(&integer(50 * each)));
    assert_eq!(summary.member("distinct_skills_used"), Some(&integer(51)));
    let mut fields = Fields::new();
    for i in 0..50 {
        fields = fields.with(&format!("s{i}"), record(i64::MAX / 50 + 1, 0, 0));
    }
    assert!(!usage_counts_fit(Some(&fields.table())));
}

#[test]
fn counts_that_do_not_fit_are_found() {
    let many = Fields::new().with("a", record(0, i64::MAX, 0)).with("b", record(0, 1, 0)).table();
    assert!(!usage_counts_fit(Some(&many)));
    assert!(!usage_counts_fit(Some(&Fields::new().with("a", record(i64::MAX, 1, 0)).table())));
    assert!(!usage_counts_fit(Some(&Fields::new().with("a", record(0, 0, i64::MIN)).with("b", record(0, 0, -1)).table())));
    assert!(usage_counts_fit(Some(&Fields::new().with("a", record(0, i64::MAX, 0)).table())));
    assert!(usage_counts_fit(None));
    assert!(usage_counts_fit(Some(&Value::Null)));
}

#[test]
fn without_a_usage_file_the_report_is_empty() {
    assert_eq!(skills_analytics_from_usage_sidecar(None), empty_skills_json());
    assert_eq!(skills_analytics_from_usage_sidecar(Some(&text("x"))), empty_skills_json());
    assert_eq!(
        empty_skills_json().member("top_skills"),
        Some(&Value::List(Vec::new()))
    );
    let row = skill_row(&text("n"), &record(1, 2, 3), Some(-1));
    assert_eq!(row.member("total_count"), Some(&integer(6)));
    assert_eq!(row.member("last_used_at"), Some(&Value::Number(Number::WholeFloat(-1))));
}

#[test]
fn usage_is_reported_by_day_and_model() {
    let usage = Usage {
        daily: vec![DailyUsage {
            day: "2026-01-01".to_string(),
            input_tokens: bits(1.0),
            output_tokens: bits(2.0),
            cache_read_tokens: bits(3.0),
            reasoning_tokens: bits(4.0),
            estimated_cost: bits(5.0),
            actual_cost: bits(6.0),
            sessions: 2,
            api_calls: bits(7.0),
        }],
        by_model: vec![ModelUsage {
            model: "m".to_string(),
            input_tokens: bits(1.0),
            output_tokens: bits(2.0),
            estimated_cost: bits(3.0),
            sessions: 4,
            api_calls: bits(5.0),
        }],
        totals: totals(),
    };
    let report = get_analytics(Some(3), Some(&usage), empty_skills_json());
    let day = &report.member("daily").unwrap().as_list().unwrap()[0];
    assert_eq!(day.member_text("day"), Some("2026-01-01"));
    assert_eq!(day.member("sessions"), Some(&integer(2)));
    assert_eq!(day.member("api_calls"), Some(&float(bits(7.0))));
    let model = &report.member("by_model").unwrap().as_list().unwrap()[0];
    assert_eq!(model.member("estimated_cost"), Some(&float(bits(3.0))));
    assert_eq!(report.member("totals").unwrap().member("total_sessions"), Some(&integer(7)));
    assert_eq!(report.member("totals").unwrap().member("total_input"), Some(&float(bits(1.0))));
    assert_eq!(report.member("period_days"), Some(&integer(3)));
    assert_eq!(report.member("skills"), Some(&empty_skills_json()));
    let none = get_analytics(None, None, empty_skills_json());
    assert_eq!(none.member("daily"), Some(&Value::List(Vec::new())));
    assert_eq!(none.member("totals").unwrap().member("total_input"), Some(&integer(0)));
    assert_eq!(none.member("period_days"), Some(&integer(30)));
}

#[test]
fn models_are_reported_with_their_providers() {
    let row = |provider: Option<&str>| ProviderUsage {
        model: "m".to_string(),
        provider: provider.map(|p| p.to_string()),
        input_tokens: bits(1.0),
        output_tokens: bits(2.0),
        cache_read_tokens: bits(3.0),
        reasoning_tokens: bits(4.0),
        estimated_cost: bits(5.0),
        actual_cost: bits(6.0),
        sessions: 1,
        api_calls: bits(7.0),
        tool_calls: bits(8.0),
        last_used_at: bits(9.0),
        avg_tokens_per_session: bits(10.0),
    };
    let usage = ModelsUsage {
        models: vec![row(Some("p")), row(None)],
        distinct_models: 1,
        totals: totals(),
    };
    let report = get_models_analytics(None, Some(&usage));
    let models = report.member("models").unwrap().as_list().unwrap();
    assert_eq!(models[0].member_text("provider"), Some("p"));
    assert_eq!(models[1].member_text("provider"), Some(""));
    assert_eq!(models[0].member("capabilities"), Some(&Fields::new().table()));
    assert_eq!(models[0].member("last_used_at"), Some(&float(bits(9.0))));
    assert_eq!(report.member("totals").unwrap().member("distinct_models"), Some(&integer(1)));
    let none = get_models_analytics(Some(400), None);
    assert_eq!(none.member("totals").unwrap().member("distinct_models"), Some(&integer(0)));
    assert_eq!(none.member("period_days"), Some(&integer(366)));
}
