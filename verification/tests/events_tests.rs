use camhub::routes::events::{
    event_from_item, events_feed, events_table, sort_newest_first, EventItem, EventResponse,
    FEED_LIMIT,
};

fn ev(device: &str, ts: &str) -> EventResponse {
    EventResponse {
        device_id: device.to_string(),
        timestamp: ts.to_string(),
        image_url: format!("u-{}-{}", device, ts),
        bucket: "b".to_string(),
    }
}

fn item(device: &str, ts: &str) -> EventItem {
    EventItem {
        device_id: Some(device.to_string()),
        timestamp: Some(ts.to_string()),
        image_url: Some(format!("u-{}-{}", device, ts)),
        bucket: Some("b".to_string()),
    }
}

fn ids(v: &[EventResponse]) -> Vec<String> {
    v.iter().map(|e| format!("{}@{}", e.device_id, e.timestamp)).collect()
}

#[test]
fn sort_is_newest_first_and_stable() {
    let input = vec![
        ev("a", "2024-01-01"),
        ev("b", "2024-03-01"),
        ev("c", "2024-01-01"),
        ev("d", "2024-02-01"),
        ev("e", "2024-03-01"),
    ];
    let sorted = sort_newest_first(input);
    assert_eq!(
        ids(&sorted),
        vec!["b@2024-03-01", "e@2024-03-01", "d@2024-02-01", "a@2024-01-01", "c@2024-01-01"]
    );
}

#[test]
fn sort_matches_std_stable_sort() {
    let stamps = ["3", "10", "2", "", "2", "b", "a", "10"];
    let input: Vec<EventResponse> =
        stamps.iter().enumerate().map(|(i, t)| ev(&i.to_string(), t)).collect();
    let mut expected: Vec<EventResponse> =
        stamps.iter().enumerate().map(|(i, t)| ev(&i.to_string(), t)).collect();
    expected.sort_by(|a, b| b.timestamp.cmp(&a.timestamp));
    assert_eq!(ids(&sort_newest_first(input)), ids(&expected));
}

#[test]
fn missing_attributes_read_as_empty() {
    let e = event_from_item(EventItem {
        device_id: Some("cam01".to_string()),
        timestamp: None,
        image_url: None,
        bucket: Some("b".to_string()),
    });
    assert_eq!((e.device_id.as_str(), e.timestamp.as_str(), e.image_url.as_str(), e.bucket.as_str()),
        ("cam01", "", "", "b"));
}

#[test]
fn feed_merges_cameras_and_cuts_to_limit() {
    let mut cam1 = Vec::new();
    let mut cam2 = Vec::new();
    for i in 0..40 {
        cam1.push(item("cam01", &format!("2024-01-{:02}T00", i)));
        cam2.push(item("cam02", &format!("2024-01-{:02}T12", i)));
    }
    let feed = events_feed(vec![cam1, cam2]);
    assert_eq!(feed.len(), FEED_LIMIT);
    assert_eq!(feed[0].timestamp, "2024-01-39T12");
    assert_eq!(feed[0].device_id, "cam02");
    assert_eq!(feed[1].timestamp, "2024-01-39T00");
    assert_eq!(feed[49].timestamp, "2024-01-15T00");
    for w in feed.windows(2) {
        assert!(w[0].timestamp >= w[1].timestamp);
    }
}

#[test]
fn feed_of_few_events_keeps_all() {
    let feed = events_feed(vec![vec![item("cam01", "1"), item("cam01", "3")], vec![], vec![item("cam03", "2")]]);
    assert_eq!(ids(&feed), vec!["cam01@3", "cam03@2", "cam01@1"]);
    assert!(events_feed(Vec::new()).is_empty());
}

#[test]
fn events_table_default() {
    assert_eq!(events_table(None), "image_events");
    assert_eq!(events_table(Some("t".to_string())), "t");
}
