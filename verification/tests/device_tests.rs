use camhub::backend::server_address;
use camhub::clock::millis_since_epoch;
use camhub::db::sqlite::{migrations, CREATE_USERS_TABLE, CREATE_USER_CAMERAS_TABLE};
use camhub::device::{broker, device_client_id, device_settings, image_topic, session_client_id};
use camhub::image_publisher::{
    file_extension, image_event, image_event_at, is_image_file, new_snapshots, object_key,
    object_key_at, object_url, upload_file_name, Snapshot,
};
use camhub::link::{device_step, listener_step, LinkAction, LinkEvent};
use camhub::routes::images::image_prefix;
use camhub::routes::mqtt_listener::{broker_host, listener_client_id};
use camhub::timestamp;

fn snap(name: &str, modified: Option<i128>) -> Snapshot {
    Snapshot { name: name.as_bytes().to_vec(), modified }
}

#[test]
fn extensions_follow_path_extension() {
    for name in ["a.jpg", "b.tar.gz", ".bashrc", "noext", "..", "x.", ".a.b", "a.JPG"] {
        let expected = std::path::Path::new(name).extension().map(|e| e.as_encoded_bytes().to_vec());
        assert_eq!(file_extension(name.as_bytes()), expected, "{:?}", name);
    }
}

#[test]
fn image_files_by_extension() {
    assert!(is_image_file(b"photo.jpg"));
    assert!(is_image_file(b"photo.JPEG"));
    assert!(is_image_file(b"Photo.Png"));
    assert!(is_image_file(b"\xff.png"));
    assert!(!is_image_file(b"notes.txt"));
    assert!(!is_image_file(b".png"));
    assert!(!is_image_file(b"jpg"));
    assert!(!is_image_file(b"a.jpg.bak"));
    assert!(!is_image_file(b"notes"));
    assert!(!is_image_file(b"a.\xff"));
    assert!(!is_image_file(b"trailing."));
}

#[test]
fn scan_picks_new_images_in_order() {
    let files = vec![
        snap("a.jpg", Some(10)),
        snap("b.txt", Some(50)),
        snap("c.png", Some(5)),
        snap("d.jpeg", None),
        snap("e.jpg", Some(20)),
        snap("f.jpg", Some(20)),
    ];
    let (seen, picked) = new_snapshots(None, &files);
    assert_eq!(seen, Some(20));
    assert_eq!(picked, vec![0, 4]);
    let (seen, picked) = new_snapshots(Some(20), &files);
    assert_eq!(seen, Some(20));
    assert!(picked.is_empty());
    let (seen, picked) = new_snapshots(Some(7), &files);
    assert_eq!((seen, picked), (Some(20), vec![0, 4]));
    assert_eq!(new_snapshots(None, &Vec::new()), (None, Vec::new()));
}

#[test]
fn upload_names_keys_and_urls() {
    assert_eq!(upload_file_name(b"shot.jpg"), "shot.jpg");
    assert_eq!(upload_file_name(&[0xff, 0x2e, 0x6a]), "image.jpg");
    assert_eq!(object_key("cam01", "20240101T000000", "a.jpg"), "images/cam01/20240101T000000-a.jpg");
    assert_eq!(object_key_at("cam01", "a.jpg", 0).unwrap(), "images/cam01/19700101T000000-a.jpg");
    assert_eq!(object_key_at("cam02", "b.png", 1_700_000_000).unwrap(), "images/cam02/20231114T221320-b.png");
    assert!(object_key_at("cam02", "b.png", i64::MIN).is_none());
    assert_eq!(object_url("bkt", "images/k"), "https://bkt.s3.amazonaws.com/images/k");
}

#[test]
fn stored_image_is_listed_scenario() {
    let key = object_key_at("cam04", "x.jpg", 1_000).unwrap();
    assert!(key.starts_with(&image_prefix("cam04")));
}

#[test]
fn image_events() {
    let e = image_event("cam01", "u", "b", "k", "t".to_string());
    assert_eq!(e.event, "image_captured");
    let e = image_event_at("cam01", "u", "b", "k", 86_400, 0).unwrap();
    assert_eq!((e.device_id.as_str(), e.image_url.as_str(), e.bucket.as_str(), e.key.as_str()), ("cam01", "u", "b", "k"));
    assert_eq!(e.timestamp, "1970-01-02T00:00:00+00:00");
}

#[test]
fn device_settings_defaults() {
    let s = device_settings(None, None, None, None, None);
    assert_eq!(s.mode, "mock");
    assert_eq!(s.device_id, "cam01");
    assert_eq!(s.aws_endpoint, "");
    assert_eq!(s.s3_bucket, "cam01-images");
    assert_eq!(s.watch_dir, "/app/snapshots");
    let b = broker(&s);
    assert_eq!((b.host.as_str(), b.port, b.tls), ("test.mosquitto.org", 1883, false));
    let s = device_settings(Some("aws".to_string()), Some("cam09".to_string()), Some("iot.example".to_string()), None, None);
    let b = broker(&s);
    assert_eq!((b.host.as_str(), b.port, b.tls), ("iot.example", 8883, true));
    assert_eq!(image_topic("cam09"), "images/cam09/events");
}

#[test]
fn client_ids() {
    assert_eq!(device_client_id("cam01", 1700000000123), "cam01-1700000000123");
    let id = session_client_id("cam01").unwrap();
    assert!(id.starts_with("cam01-"));
    assert!(id["cam01-".len()..].parse::<u128>().unwrap() > 1_600_000_000_000);
    assert_eq!(listener_client_id("u"), "backend-listener-u");
    assert_eq!(broker_host(None), "");
    assert_eq!(broker_host(Some("h".to_string())), "h");
}

#[test]
fn clock_milliseconds() {
    assert_eq!(millis_since_epoch(2, 345_678_901), 2345);
    assert_eq!(millis_since_epoch(0, 999_999_999), 999);
    assert!(timestamp().unwrap() > 1_600_000_000_000);
}

#[test]
fn listener_steps() {
    match listener_step(LinkEvent::Connected) {
        LinkAction::Subscribe { filter, announce } => {
            assert_eq!(filter, "images/+/events");
            assert_eq!(announce, "MQTT listener subscribed to images/+/events");
        }
        _ => panic!("expected a subscription"),
    }
    match listener_step(LinkEvent::Message(b"{\"a\":1}".to_vec())) {
        LinkAction::Forward(t) => assert_eq!(t, "{\"a\":1}"),
        _ => panic!("expected a forward"),
    }
    assert!(matches!(listener_step(LinkEvent::Message(vec![0xff])), LinkAction::Ignore));
    assert!(matches!(listener_step(LinkEvent::Other), LinkAction::Ignore));
    match listener_step(LinkEvent::Failure("refused".to_string())) {
        LinkAction::Retry { delay_secs, report } => {
            assert_eq!(delay_secs, 5);
            assert_eq!(report, "MQTT listener error: refused. Reconnecting in 5s...");
        }
        _ => panic!("expected a retry"),
    }
}

#[test]
fn device_steps() {
    match device_step(LinkEvent::Connected) {
        LinkAction::Announce(t) => assert_eq!(t, "Connected to AWS IoT Core!\n"),
        _ => panic!("expected an announcement"),
    }
    assert!(matches!(device_step(LinkEvent::Message(b"x".to_vec())), LinkAction::Ignore));
    match device_step(LinkEvent::Failure("eof".to_string())) {
        LinkAction::Retry { delay_secs, report } => {
            assert_eq!(delay_secs, 5);
            assert_eq!(report, "Connection lost: eof. Retrying in 5s...");
        }
        _ => panic!("expected a retry"),
    }
}

#[test]
fn backend_settings() {
    assert_eq!(server_address(None, None), "127.0.0.1:8080");
    assert_eq!(server_address(Some("0.0.0.0".to_string()), Some("9000".to_string())), "0.0.0.0:9000");
    let m = migrations();
    assert_eq!(m, vec![CREATE_USERS_TABLE, CREATE_USER_CAMERAS_TABLE]);
    assert!(m[0].starts_with("CREATE TABLE IF NOT EXISTS users"));
}

#[test]
fn scans_carry_the_newest_time() {
    let first = vec![snap("a.jpg", Some(10)), snap("b.jpg", Some(30))];
    let second = vec![snap("c.jpg", Some(20)), snap("d.png", Some(40)), snap("e.jpg", Some(35))];
    let (seen, picked) = new_snapshots(None, &first);
    assert_eq!((seen, picked), (Some(30), vec![0, 1]));
    let (seen2, picked2) = new_snapshots(seen, &second);
    assert_eq!((seen2, picked2.clone()), (Some(40), vec![1]));
    let mut both = first;
    both.extend(second);
    let (seen_all, picked_all) = new_snapshots(None, &both);
    assert_eq!((seen_all, picked_all), (Some(40), vec![0, 1, 3]));
}

#[test]
fn image_topics_reach_the_listener() {
    let topic = image_topic("cam07");
    let parts: Vec<&str> = topic.split('/').collect();
    assert_eq!(parts, vec!["images", "cam07", "events"]);
}
