use vibesurfer::store::types::ActionFilter;

#[test]
fn action_query_without_filter() {
    let f = ActionFilter::default();
    assert_eq!(f.query_text(), "SELECT * FROM actions WHERE 1=1 ORDER BY started_at ASC");
}

#[test]
fn action_query_numbers_the_fields_set() {
    let f = ActionFilter {
        session_id: None,
        page_id: Some("p".into()),
        group_label: Some("g".into()),
        since_started_at: None,
        limit: Some(5),
    };
    assert_eq!(
        f.query_text(),
        "SELECT * FROM actions WHERE 1=1 AND page_id=?1 AND group_label=?2 ORDER BY started_at ASC LIMIT ?3"
    );
}
