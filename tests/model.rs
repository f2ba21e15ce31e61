use shoutter_minifier::api::{Endpoint, GreetingEndpoint, GreetingEndpointHandler, GreetingName, Route};
use shoutter_minifier::model::{only_ascii, Id, Shout, User};

fn id(v: u128) -> Id {
    Id { value: v }
}

#[test]
fn ascii_only() {
    assert!(only_ascii("screen_name-42").is_ok());
    assert!(only_ascii("").is_ok());
    let e = only_ascii("naïve").unwrap_err();
    assert_eq!(e.code, "non_ascii_char_included");
}

#[test]
fn id_from_uuid_text() {
    let i = Id::from_str("550e8400-e29b-41d4-a716-446655440000").ok().unwrap();
    assert_eq!(i.value, 0x550e8400_e29b_41d4_a716_446655440000);
    assert!(Id::from_str("not a uuid").is_err());
}

#[test]
fn shout_checks_its_fields() {
    assert!(Shout::new(id(1), "hey!".to_string(), vec![]).is_ok());
    let e = Shout::new(id(1), "hey".to_string(), vec![id(2), id(2)]).err().unwrap();
    assert!(e.content_length);
    assert!(e.likes_not_unique);
    assert!(Shout::new(id(1), "x".repeat(257), vec![]).is_err());
    assert!(Shout::new(id(1), "é".repeat(256), vec![]).is_ok());
}

#[test]
fn likes_toggle() {
    let mut s = Shout::new(id(7), "hello".to_string(), vec![id(1)]).ok().unwrap();
    assert_eq!(s.id(), id(7));
    assert_eq!(s.content(), "hello");
    assert!(s.liked_by(id(1)));
    assert!(!s.like(id(1)));
    assert!(s.like(id(2)));
    assert!(s.liked_by(id(2)));
    assert!(s.dislike(id(1)));
    assert!(!s.liked_by(id(1)));
    assert!(!s.dislike(id(1)));
    s.switch_like(id(1));
    assert!(s.liked_by(id(1)));
    s.switch_like(id(1));
    assert!(!s.liked_by(id(1)));
}

#[test]
fn user_keeps_fields() {
    let u = User::new(id(3), "flisan".to_string(), "Flisan".to_string(), "hi".to_string());
    assert_eq!(u.screen_name, "flisan");
    assert_eq!(u.bio, "hi");
}

#[test]
fn greeting_endpoint() {
    assert_eq!(GreetingEndpoint.path(), "/greet");
    let mut h = GreetingEndpointHandler;
    let g = h.handle(GreetingName { name: "Flisan".to_string() }).unwrap();
    assert_eq!(g.content, "Hello Flisan, from shoutter_webserver!");
}

#[test]
fn routes() {
    assert_eq!(Route::Home.path(), "/");
    assert_eq!(Route::Login.path(), "/login");
}

#[test]
fn id_from_every_uuid_form() {
    let v = 0x550e8400_e29b_41d4_a716_446655440000u128;
    assert_eq!(Id::from_str("550e8400e29b41d4a716446655440000").ok().unwrap().value, v);
    assert_eq!(Id::from_str("{550E8400-E29B-41D4-A716-446655440000}").ok().unwrap().value, v);
    assert_eq!(Id::from_str("URN:uuid:550e8400-e29b-41d4-a716-446655440000").ok().unwrap().value, v);
    assert!(Id::from_str("550e8400-e29b-41d4-a716_446655440000").is_err());
    assert!(Id::from_str("urx:uuid:550e8400-e29b-41d4-a716-446655440000").is_err());
}
