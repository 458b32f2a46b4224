//! Event-ingestion behavior: the model mirrors the advertisement stream,
//! rejects unknown identities, and keeps its invariants.

use wlout::events::{ConfigurationEvent, Event, HeadEvent, ManagerEvent, ModeEvent};
use wlout::model::{AppData, ConfigResult};

fn feed(state: &mut AppData, ev: Event) {
    state.apply_event(ev).expect("event should be accepted");
}

fn announce_head(state: &mut AppData, head_id: u32, name: &str) {
    feed(state, Event::Manager(ManagerEvent::Head { head_id }));
    feed(
        state,
        Event::Head { head_id, event: HeadEvent::Name { name: String::from(name) } },
    );
}

fn announce_mode(state: &mut AppData, head_id: u32, mode_id: u32, w: i32, h: i32, mhz: i32) {
    feed(state, Event::Head { head_id, event: HeadEvent::Mode { mode_id } });
    feed(
        state,
        Event::Mode { mode_id, event: ModeEvent::Size { width: w, height: h } },
    );
    feed(state, Event::Mode { mode_id, event: ModeEvent::Refresh { refresh: mhz } });
}

#[test]
fn initial_state_is_empty() {
    let state = AppData::new();
    assert!(!state.initial_done);
    assert!(state.heads.is_empty());
    assert!(state.config_result.is_none());
    assert!(state.config_serial.is_none());
    assert!(!state.output_manager_found);
}

#[test]
fn done_event_records_serial_and_finishes_snapshot() {
    let mut state = AppData::new();
    feed(&mut state, Event::Manager(ManagerEvent::Done { serial: 7 }));
    assert!(state.initial_done);
    assert_eq!(state.config_serial, Some(7));
    assert!(state.output_manager_found);
}

#[test]
fn head_events_fill_attributes() {
    let mut state = AppData::new();
    announce_head(&mut state, 1, "eDP-1");
    feed(
        &mut state,
        Event::Head { head_id: 1, event: HeadEvent::Position { x: 10, y: 20 } },
    );
    feed(&mut state, Event::Head { head_id: 1, event: HeadEvent::Enabled { enabled: 1 } });
    let head = &state.heads[0];
    assert_eq!(head.name.as_deref(), Some("eDP-1"));
    assert_eq!(head.position_x, Some(10));
    assert_eq!(head.position_y, Some(20));
    assert!(head.enabled);
}

#[test]
fn enabled_event_accepts_only_one_as_true() {
    let mut state = AppData::new();
    announce_head(&mut state, 1, "eDP-1");
    feed(&mut state, Event::Head { head_id: 1, event: HeadEvent::Enabled { enabled: 1 } });
    assert!(state.heads[0].enabled);
    feed(&mut state, Event::Head { head_id: 1, event: HeadEvent::Enabled { enabled: 0 } });
    assert!(!state.heads[0].enabled);
    feed(&mut state, Event::Head { head_id: 1, event: HeadEvent::Enabled { enabled: 2 } });
    assert!(!state.heads[0].enabled);
}

#[test]
fn refresh_is_normalized_to_whole_hz() {
    let mut state = AppData::new();
    announce_head(&mut state, 1, "eDP-1");
    announce_mode(&mut state, 1, 100, 1920, 1080, 59940);
    let mode = &state.heads[0].modes[0];
    assert_eq!(mode.width, 1920);
    assert_eq!(mode.height, 1080);
    assert_eq!(mode.rate, 59);
}

#[test]
fn duplicate_mode_announcement_is_ignored() {
    let mut state = AppData::new();
    announce_head(&mut state, 1, "eDP-1");
    feed(&mut state, Event::Head { head_id: 1, event: HeadEvent::Mode { mode_id: 100 } });
    feed(&mut state, Event::Head { head_id: 1, event: HeadEvent::Mode { mode_id: 100 } });
    assert_eq!(state.heads[0].modes.len(), 1);
}

#[test]
fn event_for_unknown_head_is_rejected_without_mutation() {
    let mut state = AppData::new();
    announce_head(&mut state, 1, "eDP-1");
    let before_len = state.heads.len();
    let r = state.apply_event(Event::Head {
        head_id: 99,
        event: HeadEvent::Position { x: 1, y: 2 },
    });
    assert!(r.is_err());
    assert_eq!(r.unwrap_err().object_id, 99);
    assert_eq!(state.heads.len(), before_len);
    assert_eq!(state.heads[0].position_x, None);
}

#[test]
fn current_mode_must_reference_an_advertised_mode() {
    // No dangling current-mode reference: a CurrentMode event naming a mode
    // that is not in the head's mode set is rejected and changes nothing.
    let mut state = AppData::new();
    announce_head(&mut state, 1, "eDP-1");
    announce_mode(&mut state, 1, 100, 1920, 1080, 60000);
    let r = state.apply_event(Event::Head {
        head_id: 1,
        event: HeadEvent::CurrentMode { mode_id: 555 },
    });
    assert!(r.is_err());
    assert!(state.heads[0].get_current_mode().is_none());

    feed(
        &mut state,
        Event::Head { head_id: 1, event: HeadEvent::CurrentMode { mode_id: 100 } },
    );
    let current = state.heads[0].get_current_mode().expect("current mode set");
    assert_eq!(current.id, 100);
}

#[test]
fn at_most_one_mode_is_current() {
    let mut state = AppData::new();
    announce_head(&mut state, 1, "eDP-1");
    announce_mode(&mut state, 1, 100, 1920, 1080, 60000);
    announce_mode(&mut state, 1, 101, 1280, 720, 60000);
    feed(
        &mut state,
        Event::Head { head_id: 1, event: HeadEvent::CurrentMode { mode_id: 100 } },
    );
    feed(
        &mut state,
        Event::Head { head_id: 1, event: HeadEvent::CurrentMode { mode_id: 101 } },
    );
    let currents: Vec<_> = state.heads[0].modes.iter().filter(|m| m.is_current).collect();
    assert_eq!(currents.len(), 1);
    assert_eq!(currents[0].id, 101);
}

#[test]
fn mode_preferred_flag_is_set() {
    let mut state = AppData::new();
    announce_head(&mut state, 1, "eDP-1");
    announce_mode(&mut state, 1, 100, 1920, 1080, 60000);
    feed(&mut state, Event::Mode { mode_id: 100, event: ModeEvent::Preferred });
    assert!(state.heads[0].modes[0].is_preferred);
}

#[test]
fn configuration_events_fill_only_the_result_slot() {
    // A resolved transaction must not mutate any head's cached state.
    let mut state = AppData::new();
    announce_head(&mut state, 1, "eDP-1");
    feed(
        &mut state,
        Event::Head { head_id: 1, event: HeadEvent::Position { x: 100, y: 50 } },
    );
    let name_before = state.heads[0].name.clone();
    let pos_before = (state.heads[0].position_x, state.heads[0].position_y);

    feed(&mut state, Event::Configuration(ConfigurationEvent::Failed));
    assert_eq!(state.config_result, Some(ConfigResult::Failed));
    assert_eq!(state.heads[0].name, name_before);
    assert_eq!((state.heads[0].position_x, state.heads[0].position_y), pos_before);

    feed(&mut state, Event::Configuration(ConfigurationEvent::Cancelled));
    assert_eq!(state.config_result, Some(ConfigResult::Cancelled));
    assert_eq!(state.heads[0].name, name_before);

    feed(&mut state, Event::Configuration(ConfigurationEvent::Succeeded));
    assert_eq!(state.config_result, Some(ConfigResult::Succeeded));
}

#[test]
fn every_attribute_event_sets_its_field() {
    let mut state = AppData::new();
    announce_head(&mut state, 1, "eDP-1");
    feed(
        &mut state,
        Event::Head {
            head_id: 1,
            event: HeadEvent::Description { description: String::from("built-in panel") },
        },
    );
    feed(
        &mut state,
        Event::Head {
            head_id: 1,
            event: HeadEvent::SerialNumber { serial_number: String::from("0x4C830A4D") },
        },
    );
    feed(
        &mut state,
        Event::Head { head_id: 1, event: HeadEvent::Make { make: String::from("ACME") } },
    );
    feed(
        &mut state,
        Event::Head { head_id: 1, event: HeadEvent::Model { model: String::from("Panel 13") } },
    );
    feed(
        &mut state,
        Event::Head { head_id: 1, event: HeadEvent::PhysicalSize { width: 290, height: 190 } },
    );
    feed(
        &mut state,
        Event::Head {
            head_id: 1,
            event: HeadEvent::Transform { transform: Some(wlout::model::Transform::Rotate90) },
        },
    );
    feed(
        &mut state,
        Event::Head { head_id: 1, event: HeadEvent::Scale { scale_millis: 1500 } },
    );
    feed(
        &mut state,
        Event::Head {
            head_id: 1,
            event: HeadEvent::AdaptiveSync {
                state: Some(wlout::model::AdaptiveSyncState::Enabled),
            },
        },
    );
    let head = &state.heads[0];
    assert_eq!(head.description.as_deref(), Some("built-in panel"));
    assert_eq!(head.serial.as_deref(), Some("0x4C830A4D"));
    assert_eq!(head.make.as_deref(), Some("ACME"));
    assert_eq!(head.model.as_deref(), Some("Panel 13"));
    assert_eq!((head.physical_width, head.physical_height), (Some(290), Some(190)));
    assert_eq!(head.transform, Some(wlout::model::Transform::Rotate90));
    assert_eq!(head.scale_millis, Some(1500));
    assert_eq!(head.adaptive_sync, Some(wlout::model::AdaptiveSyncState::Enabled));
}

#[test]
fn output_manager_global_is_bound_once() {
    let mut state = AppData::new();
    assert!(wlout::events::should_bind_output_manager(&state, "zwlr_output_manager_v1"));
    assert!(!wlout::events::should_bind_output_manager(&state, "wl_compositor"));
    // After the manager has spoken, duplicate globals are ignored.
    feed(&mut state, Event::Manager(ManagerEvent::Done { serial: 1 }));
    assert!(!wlout::events::should_bind_output_manager(&state, "zwlr_output_manager_v1"));
}

#[test]
fn reannouncing_a_head_resets_it() {
    let mut state = AppData::new();
    announce_head(&mut state, 1, "eDP-1");
    feed(&mut state, Event::Manager(ManagerEvent::Head { head_id: 1 }));
    assert_eq!(state.heads.len(), 1);
    assert_eq!(state.heads[0].name, None);
}
