use p2boards::query::{
    build_filtered_changelog, compose_filters, nickname_to_resolve, render_query, BindValue,
    ChangelogQueryParams, ComposedQuery, FilterError, Predicate, ORDER_AND_LIMIT, SELECT_CHANGELOG,
};

fn params() -> ChangelogQueryParams {
    ChangelogQueryParams {
        limit: None,
        nick_name: None,
        profile_number: None,
        chamber: None,
        sp: None,
        coop: None,
        wr_gain: None,
        has_demo: None,
        yt: None,
        first: None,
        last: None,
    }
}

fn conditions(q: &ComposedQuery) -> String {
    let rest = q.sql.strip_prefix(SELECT_CHANGELOG).expect("query starts with the selection");
    let end = rest.find(ORDER_AND_LIMIT).expect("query has an order clause");
    rest[..end].to_string()
}

fn limit_text(q: &ComposedQuery) -> String {
    let start = q.sql.find(ORDER_AND_LIMIT).unwrap() + ORDER_AND_LIMIT.len();
    q.sql[start..].to_string()
}

fn texts(q: &ComposedQuery) -> Vec<String> {
    q.binds
        .iter()
        .map(|b| match b {
            BindValue::Text(s) => s.clone(),
            BindValue::Int(n) => format!("#{}", n),
        })
        .collect()
}

fn strings(v: &[&str]) -> Vec<String> {
    v.iter().map(|s| s.to_string()).collect()
}

#[test]
fn no_filters_gives_bare_query_with_default_limit() {
    let q = build_filtered_changelog(&params(), None).unwrap();
    assert_eq!(conditions(&q), "");
    assert_eq!(limit_text(&q), "200");
    assert!(q.binds.is_empty());
    assert_eq!(
        q.sql,
        format!("{}{}200", SELECT_CHANGELOG, ORDER_AND_LIMIT)
    );
}

#[test]
fn default_params_have_no_predicates() {
    let p = ChangelogQueryParams::default();
    assert_eq!(p.limit, Some(200));
    assert_eq!(p.sp, Some(true));
    assert_eq!(p.coop, Some(true));
    let preds = compose_filters(&p, None).unwrap();
    assert!(preds.is_empty());
}

#[test]
fn single_player_demo_page_of_fifty() {
    let mut p = params();
    p.coop = Some(false);
    p.sp = Some(true);
    p.has_demo = Some(true);
    p.limit = Some(50);
    let q = build_filtered_changelog(&p, None).unwrap();
    assert_eq!(
        conditions(&q),
        " WHERE chapter.is_multiplayer = False AND cl.demo_id IS NOT NULL"
    );
    assert_eq!(limit_text(&q), "50");
    assert!(q.sql.contains("ORDER BY cl.timestamp DESC NULLS LAST"));
    assert!(q.binds.is_empty());
}

#[test]
fn mode_flags_collapse_to_at_most_one_predicate() {
    let cases: [(Option<bool>, Option<bool>, &str); 7] = [
        (Some(true), Some(false), " WHERE chapter.is_multiplayer = False"),
        (None, Some(false), " WHERE chapter.is_multiplayer = False"),
        (Some(false), Some(true), " WHERE chapter.is_multiplayer = True"),
        (Some(false), None, " WHERE chapter.is_multiplayer = True"),
        (Some(false), Some(false), ""),
        (Some(true), Some(true), ""),
        (None, None, ""),
    ];
    for (sp, coop, expected) in cases {
        let mut p = params();
        p.sp = sp;
        p.coop = coop;
        let q = build_filtered_changelog(&p, None).unwrap();
        assert_eq!(conditions(&q), expected, "sp={:?} coop={:?}", sp, coop);
    }
}

#[test]
fn content_flags_in_both_directions() {
    let mut p = params();
    p.has_demo = Some(false);
    p.yt = Some(true);
    p.wr_gain = Some(true);
    let q = build_filtered_changelog(&p, None).unwrap();
    assert_eq!(
        conditions(&q),
        " WHERE cl.demo_id IS NULL AND cl.youtube_id IS NOT NULL AND cl.post_rank = 1"
    );
    p.yt = Some(false);
    p.wr_gain = Some(false);
    let q = build_filtered_changelog(&p, None).unwrap();
    assert_eq!(conditions(&q), " WHERE cl.demo_id IS NULL AND cl.youtube_id IS NULL");
}

#[test]
fn map_and_user_are_bound_not_spliced() {
    let mut p = params();
    p.chamber = Some("47458".to_string());
    p.profile_number = Some("76561198040982247".to_string());
    let q = build_filtered_changelog(&p, None).unwrap();
    assert_eq!(conditions(&q), " WHERE cl.map_id = $1 AND cl.profile_number = $2");
    assert_eq!(texts(&q), strings(&["47458", "76561198040982247"]));
}

#[test]
fn both_cursors_keep_only_first() {
    let mut p = params();
    p.first = Some(1000);
    p.last = Some(10);
    let q = build_filtered_changelog(&p, None).unwrap();
    assert_eq!(conditions(&q), " WHERE cl.id > $1");
    assert_eq!(texts(&q), strings(&["#1000"]));
    assert!(!q.sql.contains("cl.id <"));
}

#[test]
fn last_cursor_alone_bounds_from_above() {
    let mut p = params();
    p.last = Some(10);
    let q = build_filtered_changelog(&p, None).unwrap();
    assert_eq!(conditions(&q), " WHERE cl.id < $1");
    assert_eq!(texts(&q), strings(&["#10"]));
}

#[test]
fn predicate_count_follows_consulted_fields() {
    let mut p = params();
    assert_eq!(compose_filters(&p, None).unwrap().len(), 0);
    p.sp = Some(false);
    p.coop = Some(false);
    assert_eq!(compose_filters(&p, None).unwrap().len(), 0);
    p.coop = Some(true);
    assert_eq!(compose_filters(&p, None).unwrap().len(), 1);
    p.has_demo = Some(false);
    p.yt = Some(true);
    p.wr_gain = Some(false);
    assert_eq!(compose_filters(&p, None).unwrap().len(), 3);
    p.wr_gain = Some(true);
    p.chamber = Some("m".to_string());
    p.profile_number = Some("1".to_string());
    p.nick_name = Some("n".to_string());
    p.first = Some(5);
    p.last = Some(3);
    assert_eq!(compose_filters(&p, None).unwrap().len(), 7);
}

#[test]
fn nickname_without_matches_fails() {
    let mut p = params();
    p.nick_name = Some("nobody".to_string());
    assert!(matches!(
        build_filtered_changelog(&p, None),
        Err(FilterError::NoUsersFound)
    ));
    assert!(matches!(
        build_filtered_changelog(&p, Some(Vec::new())),
        Err(FilterError::NoUsersFound)
    ));
    assert!(matches!(compose_filters(&p, None), Err(FilterError::NoUsersFound)));
}

#[test]
fn nickname_with_one_match_is_a_plain_check() {
    let mut p = params();
    p.nick_name = Some("ali".to_string());
    p.first = Some(7);
    let q = build_filtered_changelog(&p, Some(strings(&["111"]))).unwrap();
    assert_eq!(conditions(&q), " WHERE cl.profile_number = $1 AND cl.id > $2");
    assert_eq!(texts(&q), strings(&["111", "#7"]));
}

#[test]
fn nickname_with_several_matches_is_one_group() {
    let mut p = params();
    p.nick_name = Some("ali".to_string());
    p.has_demo = Some(true);
    let q = build_filtered_changelog(&p, Some(strings(&["111", "222", "333"]))).unwrap();
    assert_eq!(
        conditions(&q),
        " WHERE cl.demo_id IS NOT NULL AND (cl.profile_number = $1 OR cl.profile_number = $2 OR cl.profile_number = $3)"
    );
    assert_eq!(texts(&q), strings(&["111", "222", "333"]));
    let preds = compose_filters(&p, Some(strings(&["111", "222", "333"]))).unwrap();
    let groups: Vec<&Predicate> = preds.iter().filter(|q| matches!(q, Predicate::Users(_))).collect();
    assert_eq!(groups.len(), 1);
    match groups[0] {
        Predicate::Users(ids) => assert_eq!(ids, &strings(&["111", "222", "333"])),
        _ => unreachable!(),
    }
}

#[test]
fn user_id_takes_precedence_over_nickname() {
    let mut p = params();
    p.profile_number = Some("42".to_string());
    p.nick_name = Some("ali".to_string());
    assert_eq!(nickname_to_resolve(&p), None);
    let q = build_filtered_changelog(&p, None).unwrap();
    assert_eq!(conditions(&q), " WHERE cl.profile_number = $1");
    assert_eq!(texts(&q), strings(&["42"]));
}

#[test]
fn nickname_lookup_is_requested_only_when_needed() {
    let mut p = params();
    assert_eq!(nickname_to_resolve(&p), None);
    p.nick_name = Some("Ali".to_string());
    assert_eq!(nickname_to_resolve(&p), Some("Ali".to_string()));
}

#[test]
fn placeholders_count_past_nine() {
    let ids: Vec<String> = (1..=11).map(|i| format!("u{}", i)).collect();
    let mut p = params();
    p.nick_name = Some("u".to_string());
    p.last = Some(99);
    let q = build_filtered_changelog(&p, Some(ids)).unwrap();
    assert!(conditions(&q).ends_with("OR cl.profile_number = $11) AND cl.id < $12"));
    assert_eq!(q.binds.len(), 12);
}

#[test]
fn empty_user_group_matches_nothing() {
    let preds = vec![Predicate::Users(Vec::new()), Predicate::FirstPlace];
    let q = render_query(&preds, 3);
    assert_eq!(conditions(&q), " WHERE FALSE AND cl.post_rank = 1");
    assert_eq!(limit_text(&q), "3");
}

#[test]
fn largest_limit_is_written_in_full() {
    let mut p = params();
    p.limit = Some(u64::MAX);
    let q = build_filtered_changelog(&p, None).unwrap();
    assert_eq!(limit_text(&q), "18446744073709551615");
}
