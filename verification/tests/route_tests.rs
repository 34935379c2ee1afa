use camhub::routes::auth::{
    callback, check_login, check_registration, internal_error, login_response, new_user,
    starter_cameras, token_subject, unauthorized, username_taken, LoginRequest, UserRecord,
};
use camhub::routes::cameras::{camera_list, cameras_token};
use camhub::routes::commands::{
    check_command, command_payload, command_payload_at, command_sent, command_topic,
    commands_token, publish_failed, triggers_capture,
};
use camhub::routes::images::{
    image_prefix, images_bucket, images_token, keys_to_sign, latest_first, ImageResponse,
};
use camhub::routes::reply::{
    authenticated_user, bearer_token, invalid_token, require_bearer, require_verified,
    user_id_from_subject,
};

fn request(username: &str, password: &str) -> LoginRequest {
    LoginRequest { username: username.to_string(), password: password.to_string() }
}

#[test]
fn bearer_token_reads_the_token() {
    assert_eq!(bearer_token(Some(b"Bearer abc.def")), Some("abc.def".to_string()));
    assert_eq!(bearer_token(Some(b"Bearer ")), Some(String::new()));
    assert_eq!(bearer_token(Some(b"bearer abc")), None);
    assert_eq!(bearer_token(Some(b"Bearer")), None);
    assert_eq!(bearer_token(Some(b"Basic abc")), None);
    assert_eq!(bearer_token(Some(b"Bearer a\x01")), None);
    assert_eq!(bearer_token(None), None);
}

#[test]
fn bearer_roundtrip_scenario() {
    let token = "eyJhbGciOiJIUzI1NiJ9.e30.sig";
    let header = format!("Bearer {}", token);
    assert_eq!(bearer_token(Some(header.as_bytes())), Some(token.to_string()));
}

#[test]
fn missing_token_messages_per_route() {
    let e = cameras_token(None).err().unwrap();
    assert_eq!((e.status, e.body.error.as_str()), (401, "Missing or invalid token"));
    for e in [commands_token(None), images_token(None), camhub::routes::events::events_token(None)] {
        let e = e.err().unwrap();
        assert_eq!((e.status, e.body.error.as_str()), (401, "Missing token"));
    }
    assert_eq!(images_token(Some(b"Bearer t")).ok(), Some("t".to_string()));
    let e = require_bearer(Some(b"Token t"), "nope").err().unwrap();
    assert_eq!(e.body.error, "nope");
}

#[test]
fn subject_to_user_id() {
    assert_eq!(user_id_from_subject("17"), 17);
    assert_eq!(user_id_from_subject("-3"), -3);
    assert_eq!(user_id_from_subject("alice"), 0);
    assert_eq!(user_id_from_subject(""), 0);
    assert_eq!(authenticated_user(Some("42".to_string())).ok(), Some(42));
    let e = authenticated_user(None).err().unwrap();
    assert_eq!((e.status, e.body.error.as_str()), (401, "Invalid token"));
    let e = invalid_token();
    assert_eq!((e.status, e.body.error.as_str()), (401, "Invalid token"));
}

#[test]
fn token_subject_names_the_user() {
    for id in [1i64, 42, 0, -5, i64::MAX] {
        let sub = token_subject(id);
        assert_eq!(sub, id.to_string());
        assert_eq!(user_id_from_subject(&sub), id);
    }
}

#[test]
fn login_checks_the_password() {
    let stored = UserRecord { id: 7, name: "ann".to_string(), password_hash: "pw".to_string() };
    assert_eq!(check_login(Some(stored), &request("ann", "pw")).ok(), Some(7));
    let stored = UserRecord { id: 7, name: "ann".to_string(), password_hash: "pw".to_string() };
    let e = check_login(Some(stored), &request("ann", "PW")).err().unwrap();
    assert_eq!((e.status, e.body.error.as_str()), (401, "Invalid username or password"));
    let e = check_login(None, &request("bob", "pw")).err().unwrap();
    assert_eq!((e.status, e.body.error.as_str()), (401, "Invalid username or password"));
    let e = unauthorized();
    assert_eq!(e.status, 401);
}

#[test]
fn registered_user_logs_in_scenario() {
    let registration = request("carol", "secret");
    let row = new_user(&registration);
    let stored = UserRecord { id: 3, name: row.name.clone(), password_hash: row.password_hash.clone() };
    assert_eq!(check_login(Some(stored), &request("carol", "secret")).ok(), Some(3));
}

#[test]
fn registration_refuses_taken_names() {
    assert!(check_registration(None).is_ok());
    let e = check_registration(Some(1)).err().unwrap();
    assert_eq!((e.status, e.body.error.as_str()), (409, "Username already taken"));
    assert_eq!(username_taken().status, 409);
}

#[test]
fn new_user_uses_the_username_everywhere() {
    let u = new_user(&request("dave", "hunter2"));
    assert_eq!(u.google_id, "dave");
    assert_eq!(u.email, "dave");
    assert_eq!(u.name, "dave");
    assert_eq!(u.password_hash, "hunter2");
}

#[test]
fn starter_cameras_are_four() {
    assert_eq!(starter_cameras(), vec!["cam01", "cam02", "cam03", "cam04"]);
}

#[test]
fn login_response_and_callback() {
    let r = login_response("tok".to_string(), 9, request("erin", "x"));
    assert_eq!((r.token.as_str(), r.user_id, r.username.as_str()), ("tok", 9, "erin"));
    assert_eq!(callback(), "callback");
    let e = internal_error("disk full");
    assert_eq!((e.status, e.body.error.as_str()), (500, "disk full"));
}

#[test]
fn registered_cameras_are_listed_running() {
    let cams = camera_list(starter_cameras());
    assert_eq!(cams.len(), 4);
    assert_eq!(cams[0].camera_id, "cam01");
    assert_eq!(cams[3].camera_id, "cam04");
    assert!(cams.iter().all(|c| c.status == "Running"));
    assert!(camera_list(Vec::new()).is_empty());
}

#[test]
fn commands_are_checked() {
    for c in ["capture", "status", "ping"] {
        assert!(check_command(c).is_ok());
    }
    let e = check_command("reboot").err().unwrap();
    assert_eq!((e.status, e.body.error.as_str()), (400, "Unknown command: reboot"));
    assert!(check_command("Capture").is_err());
    assert!(triggers_capture("capture"));
    assert!(!triggers_capture("ping"));
}

#[test]
fn command_messages() {
    assert_eq!(command_topic("cam02"), "commands/cam02");
    let p = command_payload_at("ping", "cam02", 0, 0).unwrap();
    assert_eq!((p.command.as_str(), p.camera.as_str()), ("ping", "cam02"));
    assert_eq!(p.timestamp, "1970-01-01T00:00:00+00:00");
    let p = command_payload_at("status", "cam01", 1_700_000_000, 5_000_000).unwrap();
    assert_eq!(p.timestamp, "2023-11-14T22:13:20.005+00:00");
    assert!(command_payload_at("ping", "cam01", i64::MAX, 0).is_none());
    let p = command_payload("capture", "cam03", "t".to_string());
    assert_eq!(p.timestamp, "t");
    let e = publish_failed("timeout");
    assert_eq!((e.status, e.body.error.as_str()), (500, "MQTT publish failed: timeout"));
    let r = command_sent("cam01".to_string(), "ping".to_string());
    assert_eq!((r.status.as_str(), r.camera.as_str(), r.command.as_str()), ("sent", "cam01", "ping"));
}

#[test]
fn image_listing() {
    assert_eq!(image_prefix("cam01"), "images/cam01/");
    assert_eq!(images_bucket(None), "captured-images-013545650538-us-east-1-an");
    assert_eq!(images_bucket(Some("b".to_string())), "b");
    let keys = keys_to_sign(vec![Some("a".to_string()), None, Some("b".to_string())]);
    assert_eq!(keys, vec!["a", "b"]);
    let imgs = vec![
        ImageResponse { key: "1".to_string(), url: "u1".to_string() },
        ImageResponse { key: "2".to_string(), url: "u2".to_string() },
        ImageResponse { key: "3".to_string(), url: "u3".to_string() },
    ];
    let r = latest_first(imgs);
    let keys: Vec<&str> = r.iter().map(|i| i.key.as_str()).collect();
    assert_eq!(keys, vec!["3", "2", "1"]);
    assert!(latest_first(Vec::new()).is_empty());
}

#[test]
fn any_verified_token_has_access() {
    assert!(require_verified(Some("1".to_string())).is_ok());
    assert!(require_verified(Some("someone-else".to_string())).is_ok());
    let e = require_verified(None).err().unwrap();
    assert_eq!((e.status, e.body.error.as_str()), (401, "Invalid token"));
}
