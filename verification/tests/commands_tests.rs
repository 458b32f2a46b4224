//! Command planning: directives, confirmation decisions and error selection.

use wlout::commands::{
    confirmation_accepted, get_preferred_mode, query_current_mode, MirrorCommand, ModeAutoCommand,
    ModeSetCommand, ModeSetPlan, MoveCommand, MoveRelativeCommand, PowerCommand, PowerPlan,
};
use wlout::error::CommandError;
use wlout::events::{Event, HeadEvent, ManagerEvent, ModeEvent};
use wlout::model::{AppData, HeadModeInput};
use wlout::transact::{Directive, ModeChoice};

fn feed(state: &mut AppData, ev: Event) {
    state.apply_event(ev).expect("event should be accepted");
}

fn announce_head(state: &mut AppData, head_id: u32, name: &str) {
    feed(state, Event::Manager(ManagerEvent::Head { head_id }));
    feed(
        state,
        Event::Head { head_id, event: HeadEvent::Name { name: String::from(name) } },
    );
}

fn announce_mode(state: &mut AppData, head_id: u32, mode_id: u32, w: i32, h: i32, mhz: i32) {
    feed(state, Event::Head { head_id, event: HeadEvent::Mode { mode_id } });
    feed(
        state,
        Event::Mode { mode_id, event: ModeEvent::Size { width: w, height: h } },
    );
    feed(state, Event::Mode { mode_id, event: ModeEvent::Refresh { refresh: mhz } });
}

fn set_current(state: &mut AppData, head_id: u32, mode_id: u32) {
    feed(state, Event::Head { head_id, event: HeadEvent::CurrentMode { mode_id } });
}

fn set_position(state: &mut AppData, head_id: u32, x: i32, y: i32) {
    feed(state, Event::Head { head_id, event: HeadEvent::Position { x, y } });
}

fn enable(state: &mut AppData, head_id: u32) {
    feed(state, Event::Head { head_id, event: HeadEvent::Enabled { enabled: 1 } });
}

#[test]
fn confirmation_accepts_only_y() {
    assert!(confirmation_accepted("y"));
    assert!(confirmation_accepted("Y"));
    assert!(!confirmation_accepted("yes"));
    assert!(!confirmation_accepted("n"));
    assert!(!confirmation_accepted("N"));
    assert!(!confirmation_accepted(""));
    assert!(!confirmation_accepted(" y"));
}

#[test]
fn mode_set_with_advertised_mode_applies_directly() {
    let mut state = AppData::new();
    announce_head(&mut state, 1, "eDP-1");
    announce_mode(&mut state, 1, 100, 1920, 1080, 60000);
    let cmd = ModeSetCommand {
        name: String::from("eDP-1"),
        mode: HeadModeInput { width: 1920, height: 1080, rate: 60 },
        force: false,
    };
    match cmd.plan(&state).unwrap() {
        ModeSetPlan::Apply(Directive::Enable { head_id, position, mode }) => {
            assert_eq!(head_id, 1);
            assert!(position.is_none());
            assert!(matches!(mode, Some(ModeChoice::Advertised(100))));
        },
        other => panic!("unexpected plan: {:?}", other),
    }
}

#[test]
fn mode_set_with_unknown_mode_and_no_force_asks_first() {
    // A non-advertised mode without --force must prompt before anything is
    // submitted; only y/Y proceeds.
    let mut state = AppData::new();
    announce_head(&mut state, 1, "eDP-1");
    announce_mode(&mut state, 1, 100, 1920, 1080, 60000);
    let cmd = ModeSetCommand {
        name: String::from("eDP-1"),
        mode: HeadModeInput { width: 1234, height: 567, rate: 89 },
        force: false,
    };
    match cmd.plan(&state).unwrap() {
        ModeSetPlan::ConfirmCustom(Directive::Enable { head_id, position, mode }) => {
            assert_eq!(head_id, 1);
            assert!(position.is_none());
            assert!(
                matches!(mode, Some(ModeChoice::Custom { width: 1234, height: 567, rate: 89 }))
            );
        },
        other => panic!("unexpected plan: {:?}", other),
    }
    assert!(!confirmation_accepted("no"));
}

#[test]
fn mode_set_with_force_skips_the_prompt() {
    let mut state = AppData::new();
    announce_head(&mut state, 1, "eDP-1");
    let cmd = ModeSetCommand {
        name: String::from("eDP-1"),
        mode: HeadModeInput { width: 800, height: 600, rate: 60 },
        force: true,
    };
    assert!(matches!(cmd.plan(&state).unwrap(), ModeSetPlan::Apply(_)));
}

#[test]
fn mode_set_on_unknown_display_fails() {
    let state = AppData::new();
    let cmd = ModeSetCommand {
        name: String::from("DP-9"),
        mode: HeadModeInput { width: 800, height: 600, rate: 60 },
        force: false,
    };
    assert_eq!(cmd.plan(&state).unwrap_err(), CommandError::DisplayNotFound);
}

#[test]
fn mode_auto_uses_the_preferred_mode() {
    let mut state = AppData::new();
    announce_head(&mut state, 1, "eDP-1");
    announce_mode(&mut state, 1, 100, 1920, 1080, 60000);
    announce_mode(&mut state, 1, 101, 1280, 720, 60000);
    feed(&mut state, Event::Mode { mode_id: 101, event: ModeEvent::Preferred });
    let cmd = ModeAutoCommand { name: String::from("eDP-1") };
    match cmd.plan(&state).unwrap() {
        Directive::Enable { head_id, mode, .. } => {
            assert_eq!(head_id, 1);
            assert!(matches!(mode, Some(ModeChoice::Advertised(101))));
        },
        other => panic!("unexpected directive: {:?}", other),
    }
}

#[test]
fn mode_auto_without_preferred_mode_fails() {
    let mut state = AppData::new();
    announce_head(&mut state, 1, "eDP-1");
    announce_mode(&mut state, 1, 100, 1920, 1080, 60000);
    let cmd = ModeAutoCommand { name: String::from("eDP-1") };
    assert_eq!(cmd.plan(&state).unwrap_err(), CommandError::NoPreferredMode);
}

#[test]
fn current_and_preferred_queries() {
    let mut state = AppData::new();
    announce_head(&mut state, 1, "eDP-1");
    announce_mode(&mut state, 1, 100, 1920, 1080, 59940);
    announce_mode(&mut state, 1, 101, 1280, 720, 60000);
    set_current(&mut state, 1, 100);
    feed(&mut state, Event::Mode { mode_id: 101, event: ModeEvent::Preferred });

    let current = query_current_mode(&state, "eDP-1").unwrap();
    assert_eq!((current.width, current.height, current.rate), (1920, 1080, 59));
    let preferred = get_preferred_mode(&state, "eDP-1").unwrap();
    assert_eq!((preferred.width, preferred.height), (1280, 720));

    assert_eq!(
        query_current_mode(&state, "HDMI-9").unwrap_err(),
        CommandError::DisplayNotFound
    );
}

#[test]
fn current_query_on_switched_off_display_fails() {
    let mut state = AppData::new();
    announce_head(&mut state, 1, "eDP-1");
    announce_mode(&mut state, 1, 100, 1920, 1080, 60000);
    assert_eq!(
        query_current_mode(&state, "eDP-1").unwrap_err(),
        CommandError::NoCurrentMode
    );
}

#[test]
fn move_command_places_head_exactly() {
    let mut state = AppData::new();
    announce_head(&mut state, 1, "eDP-1");
    let cmd = MoveCommand { name: String::from("eDP-1"), x: 400, y: -200 };
    match cmd.plan(&state).unwrap() {
        Directive::Enable { head_id, position: Some(p), mode: None } => {
            assert_eq!(head_id, 1);
            assert_eq!((p.x, p.y), (400, -200));
        },
        other => panic!("unexpected directive: {:?}", other),
    }
}

#[test]
fn move_relative_left_of_scenario() {
    // Head M (current mode 1920x1080) left-of reference R at (500, 300)
    // lands at (-1420, 300).
    let mut state = AppData::new();
    announce_head(&mut state, 1, "M");
    announce_mode(&mut state, 1, 100, 1920, 1080, 60000);
    set_current(&mut state, 1, 100);
    set_position(&mut state, 1, 0, 0);
    announce_head(&mut state, 2, "R");
    announce_mode(&mut state, 2, 200, 2560, 1440, 60000);
    set_current(&mut state, 2, 200);
    set_position(&mut state, 2, 500, 300);

    let cmd = MoveRelativeCommand {
        moved_display_name: String::from("M"),
        reference_display_name: String::from("R"),
        pos: String::from("left-of"),
    };
    match cmd.plan(&state).unwrap() {
        Directive::Enable { head_id, position: Some(p), mode: None } => {
            assert_eq!(head_id, 1);
            assert_eq!((p.x, p.y), (-1420, 300));
        },
        other => panic!("unexpected directive: {:?}", other),
    }
}

#[test]
fn move_relative_requires_current_modes() {
    let mut state = AppData::new();
    announce_head(&mut state, 1, "M");
    announce_mode(&mut state, 1, 100, 1920, 1080, 60000);
    set_position(&mut state, 1, 0, 0);
    announce_head(&mut state, 2, "R");
    announce_mode(&mut state, 2, 200, 2560, 1440, 60000);
    set_current(&mut state, 2, 200);
    set_position(&mut state, 2, 500, 300);
    let cmd = MoveRelativeCommand {
        moved_display_name: String::from("M"),
        reference_display_name: String::from("R"),
        pos: String::from("above"),
    };
    assert_eq!(cmd.plan(&state).unwrap_err(), CommandError::NoCurrentMode);
}

#[test]
fn move_relative_requires_positions() {
    let mut state = AppData::new();
    announce_head(&mut state, 1, "M");
    announce_mode(&mut state, 1, 100, 1920, 1080, 60000);
    set_current(&mut state, 1, 100);
    set_position(&mut state, 1, 0, 0);
    // The reference head has a current mode but no advertised position yet.
    announce_head(&mut state, 2, "R");
    announce_mode(&mut state, 2, 200, 2560, 1440, 60000);
    set_current(&mut state, 2, 200);
    let cmd = MoveRelativeCommand {
        moved_display_name: String::from("M"),
        reference_display_name: String::from("R"),
        pos: String::from("below"),
    };
    assert_eq!(cmd.plan(&state).unwrap_err(), CommandError::MissingPosition);
}

#[test]
fn mirror_scenario_selects_the_common_dimension() {
    // eDP-1 advertises 1920x1080@60 (current, preferred); HDMI-1 advertises
    // 1920x1080@60 and 2560x1440@75 (preferred). Mirroring eDP-1 same-as
    // HDMI-1 selects 1920x1080 on both sides and puts eDP-1 exactly onto
    // HDMI-1's position, so both show the same picture.
    let mut state = AppData::new();
    announce_head(&mut state, 1, "eDP-1");
    announce_mode(&mut state, 1, 100, 1920, 1080, 60000);
    set_current(&mut state, 1, 100);
    feed(&mut state, Event::Mode { mode_id: 100, event: ModeEvent::Preferred });
    set_position(&mut state, 1, 3000, 3000);
    enable(&mut state, 1);

    announce_head(&mut state, 2, "HDMI-1");
    announce_mode(&mut state, 2, 200, 1920, 1080, 60000);
    announce_mode(&mut state, 2, 201, 2560, 1440, 75000);
    feed(&mut state, Event::Mode { mode_id: 201, event: ModeEvent::Preferred });
    set_current(&mut state, 2, 201);
    set_position(&mut state, 2, 120, 80);
    enable(&mut state, 2);

    let cmd = MirrorCommand {
        mirrored_display_name: String::from("eDP-1"),
        reference_display_name: String::from("HDMI-1"),
    };
    let (mirrored, reference) = cmd.plan(&state).unwrap();
    match mirrored {
        Directive::Enable { head_id, position: Some(p), mode } => {
            assert_eq!(head_id, 1);
            // eDP-1's new position is HDMI-1's position.
            assert_eq!((p.x, p.y), (120, 80));
            assert!(matches!(mode, Some(ModeChoice::Advertised(100))));
        },
        other => panic!("unexpected directive: {:?}", other),
    }
    match reference {
        Directive::Enable { head_id, position, mode } => {
            assert_eq!(head_id, 2);
            // HDMI-1 is not repositioned, so its position stays equal to
            // eDP-1's new one.
            assert!(position.is_none());
            // Only 1920x1080 is common; HDMI-1's own 1920x1080 mode wins.
            assert!(matches!(mode, Some(ModeChoice::Advertised(200))));
        },
        other => panic!("unexpected directive: {:?}", other),
    }
}

#[test]
fn mirror_without_common_dimension_fails() {
    let mut state = AppData::new();
    announce_head(&mut state, 1, "eDP-1");
    announce_mode(&mut state, 1, 100, 1920, 1080, 60000);
    set_current(&mut state, 1, 100);
    announce_head(&mut state, 2, "HDMI-1");
    announce_mode(&mut state, 2, 200, 2560, 1440, 75000);
    set_current(&mut state, 2, 200);
    let cmd = MirrorCommand {
        mirrored_display_name: String::from("eDP-1"),
        reference_display_name: String::from("HDMI-1"),
    };
    assert_eq!(cmd.plan(&state).unwrap_err(), CommandError::NoCommonMode);
}

#[test]
fn power_off_last_display_needs_confirmation() {
    let mut state = AppData::new();
    announce_head(&mut state, 1, "eDP-1");
    enable(&mut state, 1);
    let cmd = PowerCommand { name: String::from("eDP-1"), on: false, force: false };
    match cmd.plan(&state).unwrap() {
        PowerPlan::ConfirmLastDisplay(Directive::Disable { head_id }) => assert_eq!(head_id, 1),
        other => panic!("unexpected plan: {:?}", other),
    }
}

#[test]
fn power_off_with_force_or_second_display_is_direct() {
    let mut state = AppData::new();
    announce_head(&mut state, 1, "eDP-1");
    enable(&mut state, 1);
    let forced = PowerCommand { name: String::from("eDP-1"), on: false, force: true };
    assert!(matches!(forced.plan(&state).unwrap(), PowerPlan::Apply(Directive::Disable { .. })));

    announce_head(&mut state, 2, "HDMI-1");
    enable(&mut state, 2);
    let unforced = PowerCommand { name: String::from("eDP-1"), on: false, force: false };
    assert!(matches!(
        unforced.plan(&state).unwrap(),
        PowerPlan::Apply(Directive::Disable { .. })
    ));
}

#[test]
fn power_on_is_always_direct() {
    let mut state = AppData::new();
    announce_head(&mut state, 1, "eDP-1");
    let cmd = PowerCommand { name: String::from("eDP-1"), on: true, force: false };
    match cmd.plan(&state).unwrap() {
        PowerPlan::Apply(Directive::Enable { head_id, position, mode }) => {
            assert_eq!(head_id, 1);
            assert!(position.is_none() && mode.is_none());
        },
        other => panic!("unexpected plan: {:?}", other),
    }
}
