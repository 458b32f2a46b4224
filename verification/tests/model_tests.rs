//! State-model lookups and snapshot semantics.

use wlout::error::CommandError;
use wlout::events::{Event, HeadEvent, ManagerEvent, ModeEvent};
use wlout::model::{AppData, HeadInfo};

fn feed(state: &mut AppData, ev: Event) {
    state.apply_event(ev).expect("event should be accepted");
}

fn announce_head(state: &mut AppData, head_id: u32, name: &str) {
    feed(state, Event::Manager(ManagerEvent::Head { head_id }));
    feed(
        state,
        Event::Head { head_id, event: HeadEvent::Name { name: String::from(name) } },
    );
}

#[test]
fn get_head_resolves_by_name() {
    let mut state = AppData::new();
    announce_head(&mut state, 1, "eDP-1");
    announce_head(&mut state, 2, "HDMI-1");
    let head = state.get_head("HDMI-1").unwrap();
    assert_eq!(head.id, 2);
    assert_eq!(head.name.as_deref(), Some("HDMI-1"));
}

#[test]
fn get_head_unknown_name_fails() {
    let mut state = AppData::new();
    announce_head(&mut state, 1, "eDP-1");
    assert_eq!(state.get_head("DP-3").unwrap_err(), CommandError::DisplayNotFound);
}

#[test]
fn duplicate_names_resolve_to_the_first_match() {
    let mut state = AppData::new();
    announce_head(&mut state, 1, "DP-1");
    announce_head(&mut state, 2, "DP-1");
    assert_eq!(state.get_head("DP-1").unwrap().id, 1);
}

#[test]
fn get_head_returns_a_deep_snapshot() {
    // Later event-driven mutation must not alter data already handed out.
    let mut state = AppData::new();
    announce_head(&mut state, 1, "eDP-1");
    feed(&mut state, Event::Head { head_id: 1, event: HeadEvent::Mode { mode_id: 100 } });
    feed(
        &mut state,
        Event::Mode { mode_id: 100, event: ModeEvent::Size { width: 1920, height: 1080 } },
    );
    let snapshot = state.get_head("eDP-1").unwrap();

    feed(
        &mut state,
        Event::Head { head_id: 1, event: HeadEvent::Name { name: String::from("renamed") } },
    );
    feed(
        &mut state,
        Event::Mode { mode_id: 100, event: ModeEvent::Size { width: 1, height: 1 } },
    );

    assert_eq!(snapshot.name.as_deref(), Some("eDP-1"));
    assert_eq!(snapshot.modes[0].width, 1920);
    assert_eq!(state.heads[0].name.as_deref(), Some("renamed"));
    assert_eq!(state.heads[0].modes[0].width, 1);
}

#[test]
fn find_mode_matches_all_three_fields() {
    let mut state = AppData::new();
    announce_head(&mut state, 1, "eDP-1");
    feed(&mut state, Event::Head { head_id: 1, event: HeadEvent::Mode { mode_id: 100 } });
    feed(
        &mut state,
        Event::Mode { mode_id: 100, event: ModeEvent::Size { width: 1920, height: 1080 } },
    );
    feed(&mut state, Event::Mode { mode_id: 100, event: ModeEvent::Refresh { refresh: 60000 } });
    let head = state.get_head("eDP-1").unwrap();
    assert!(head.find_mode(1920, 1080, 60).is_some());
    assert!(head.find_mode(1920, 1080, 59).is_none());
    assert!(head.find_mode(1280, 1080, 60).is_none());
}

#[test]
fn new_head_starts_empty_and_disabled() {
    let head = HeadInfo::new(9);
    assert_eq!(head.id, 9);
    assert!(head.name.is_none());
    assert!(head.modes.is_empty());
    assert!(!head.enabled);
    assert!(head.get_current_mode().is_none());
}

#[test]
fn heads_named_lists_every_match_in_order() {
    let mut state = AppData::new();
    announce_head(&mut state, 1, "DP-1");
    announce_head(&mut state, 2, "DP-2");
    announce_head(&mut state, 3, "DP-1");
    let named = wlout::commands::heads_named(&state, "DP-1");
    let ids: Vec<u32> = named.iter().map(|h| h.id).collect();
    assert_eq!(ids, vec![1, 3]);
    assert!(wlout::commands::heads_named(&state, "DP-9").is_empty());
}
