use relay::message::{route, Message, Route};
use relay::room::{Hall, Room};
use std::rc::Rc;

fn hall(a: &str, b: &str) -> Rc<Hall> {
    Rc::new(Hall::new(a.to_string(), b.to_string()))
}

#[test]
fn neighbors_are_joined_with_commas() {
    let room = Room::new(
        "Cellar".to_string(),
        vec![],
        vec![hall("Cellar", "Attic"), hall("Kitchen", "Cellar"), hall("Cellar", "Garden")],
        false,
    );
    assert_eq!(room.neighbors_string(), "Attic,Kitchen,Garden");
}

#[test]
fn room_without_halls_has_no_neighbors() {
    let room = Room::new("Void".to_string(), vec![], vec![], true);
    assert_eq!(room.neighbors_string(), "");
}

#[test]
fn find_room_ignores_case_of_the_room_name() {
    let room = Room::new(
        "Hall".to_string(),
        vec![],
        vec![hall("Hall", "Great Library"), hall("Hall", "Vault")],
        false,
    );
    assert_eq!(room.find_room("vault".to_string()), Ok("Vault".to_string()));
    assert_eq!(room.find_room("great library".to_string()), Ok("Great Library".to_string()));
    assert_eq!(room.find_room("Vault".to_string()), Err(()));
}

#[test]
fn rooms_are_equal_by_name() {
    let a = Room::new("X".to_string(), vec![], vec![], false);
    let b = Room::new("X".to_string(), vec![], vec![], true);
    let c = Room::new("Y".to_string(), vec![], vec![], false);
    assert!(a == b);
    assert!(a != c);
}

#[test]
fn new_message_has_no_date() {
    let m = Message::new("ann".to_string(), "hello".to_string());
    assert_eq!(m.user, "ann");
    assert_eq!(m.text, "hello");
    assert!(m.date.is_none());
}

#[test]
fn pick_room_goes_by_the_lowered_names() {
    let room = Room::new(
        "Hall".to_string(),
        vec![],
        vec![hall("Hall", "Alpha"), hall("Beta", "Hall")],
        false,
    );
    let lowered = vec!["zzz".to_string(), "beta".to_string()];
    assert_eq!(room.pick_room(&lowered, &"beta".to_string()), Ok("Beta".to_string()));
    assert_eq!(room.pick_room(&lowered, &"alpha".to_string()), Err(()));
}

#[test]
fn post_renders_as_article() {
    let mut m = Message::new("ann".to_string(), "hi there".to_string());
    m.date = Some("Mon Jan  1 10:00:00".to_string());
    let expected = "\n<article class=\"POST\">\n  <header>\n    <h2>hi there</h2>\n  </header>\n  <p>\n    Posted on <time datetime=\"Mon Jan  1 10:00:00\">Mon Jan  1 10:00:00</time> by <b>ann</b>.\n  </p>\n</article>";
    assert_eq!(m.to_html(), expected);
}

#[test]
fn undated_post_renders_empty_date() {
    let m = Message::new("u".to_string(), "t".to_string());
    assert!(m.to_html().contains("<time datetime=\"\"></time> by <b>u</b>"));
}

#[test]
fn requests_are_routed() {
    assert_eq!(route("GET", "/json"), Route::Json);
    assert_eq!(route("GET", "/"), Route::Page);
    assert_eq!(route("GET", "/anything"), Route::Page);
    assert_eq!(route("POST", "/"), Route::Store);
    assert_eq!(route("DELETE", "/json"), Route::NotFound);
}
