use gilt_and_iron::ui::{
    speed_controls, tick_notifications, DebugVisible, GameSpeed, GameTime, Notifications, SpeedKeys,
};

fn keys() -> SpeedKeys {
    SpeedKeys { pause: false, normal: false, fast: false, very_fast: false, debug: false }
}

fn apply(speed: GameSpeed, keys: SpeedKeys) -> GameSpeed {
    let mut time = GameTime { speed };
    let mut debug = DebugVisible(false);
    speed_controls(false, keys, &mut time, &mut debug);
    time.speed
}

fn shown(notifications: &Notifications) -> Vec<(String, i32)> {
    notifications.messages.iter().map(|n| (n.message.clone(), n.timer)).collect()
}

#[test]
fn game_starts_at_normal_speed_with_debug_hidden() {
    assert_eq!(GameSpeed::default(), GameSpeed::Normal);
    assert_eq!(GameTime::default().speed, GameSpeed::Normal);
    assert_eq!(DebugVisible::default(), DebugVisible(false));
    assert!(Notifications::default().messages.is_empty());
}

#[test]
fn speeds_multiply_the_clock() {
    assert_eq!(GameSpeed::Paused.multiplier(), 0);
    assert_eq!(GameSpeed::Normal.multiplier(), 1);
    assert_eq!(GameSpeed::Fast.multiplier(), 2);
    assert_eq!(GameSpeed::VeryFast.multiplier(), 4);
}

#[test]
fn speeds_have_names() {
    assert_eq!(GameSpeed::Paused.label(), "Paused");
    assert_eq!(GameSpeed::Normal.label(), "Normal");
    assert_eq!(GameSpeed::Fast.label(), "Fast");
    assert_eq!(GameSpeed::VeryFast.label(), "Very Fast");
}

#[test]
fn pause_key_pauses_and_resumes() {
    let pause = SpeedKeys { pause: true, ..keys() };
    assert_eq!(apply(GameSpeed::Normal, pause), GameSpeed::Paused);
    assert_eq!(apply(GameSpeed::Fast, pause), GameSpeed::Paused);
    assert_eq!(apply(GameSpeed::VeryFast, pause), GameSpeed::Paused);
    assert_eq!(apply(GameSpeed::Paused, pause), GameSpeed::Normal);
}

#[test]
fn speed_keys_set_their_speed() {
    for speed in [GameSpeed::Paused, GameSpeed::Normal, GameSpeed::Fast, GameSpeed::VeryFast] {
        assert_eq!(apply(speed, SpeedKeys { normal: true, ..keys() }), GameSpeed::Normal);
        assert_eq!(apply(speed, SpeedKeys { fast: true, ..keys() }), GameSpeed::Fast);
        assert_eq!(apply(speed, SpeedKeys { very_fast: true, ..keys() }), GameSpeed::VeryFast);
        assert_eq!(apply(speed, keys()), speed);
    }
}

#[test]
fn of_several_speed_keys_the_fastest_wins() {
    let all = SpeedKeys { pause: true, normal: true, fast: true, very_fast: true, debug: false };
    assert_eq!(apply(GameSpeed::Normal, all), GameSpeed::VeryFast);
    let two = SpeedKeys { pause: true, normal: true, fast: true, ..keys() };
    assert_eq!(apply(GameSpeed::Normal, two), GameSpeed::Fast);
    let one = SpeedKeys { pause: true, normal: true, ..keys() };
    assert_eq!(apply(GameSpeed::Normal, one), GameSpeed::Normal);
    assert_eq!(apply(GameSpeed::Paused, one), GameSpeed::Normal);
}

#[test]
fn debug_key_shows_and_hides_the_panel() {
    let mut time = GameTime::default();
    let mut debug = DebugVisible(false);
    let key = SpeedKeys { debug: true, ..keys() };
    speed_controls(false, key, &mut time, &mut debug);
    assert!(debug.0);
    speed_controls(false, key, &mut time, &mut debug);
    assert!(!debug.0);
    speed_controls(false, keys(), &mut time, &mut debug);
    assert!(!debug.0);
    assert_eq!(time.speed, GameSpeed::Normal);
}

#[test]
fn keys_do_nothing_while_the_interface_has_the_keyboard() {
    let mut time = GameTime { speed: GameSpeed::Fast };
    let mut debug = DebugVisible(true);
    let all = SpeedKeys { pause: true, normal: true, fast: true, very_fast: true, debug: true };
    speed_controls(true, all, &mut time, &mut debug);
    assert_eq!(time.speed, GameSpeed::Fast);
    assert!(debug.0);
}

#[test]
fn messages_are_shown_in_order() {
    let mut notifications = Notifications::default();
    notifications.push("Logging Camp built".to_string(), 3000);
    notifications.push("Worker Cottage built".to_string(), 1000);
    assert_eq!(
        shown(&notifications),
        vec![("Logging Camp built".to_string(), 3000), ("Worker Cottage built".to_string(), 1000)]
    );
}

#[test]
fn messages_age_and_go_when_their_time_is_up() {
    let mut notifications = Notifications::default();
    notifications.push("a".to_string(), 3000);
    notifications.push("b".to_string(), 1000);
    notifications.push("c".to_string(), 1001);
    notifications.push("d".to_string(), 0);
    notifications.push("e".to_string(), 5000);
    tick_notifications(1000, &mut notifications);
    assert_eq!(
        shown(&notifications),
        vec![("a".to_string(), 2000), ("c".to_string(), 1), ("e".to_string(), 4000)]
    );
    tick_notifications(1, &mut notifications);
    assert_eq!(shown(&notifications), vec![("a".to_string(), 1999), ("e".to_string(), 3999)]);
    tick_notifications(0, &mut notifications);
    assert_eq!(shown(&notifications), vec![("a".to_string(), 1999), ("e".to_string(), 3999)]);
    tick_notifications(4000, &mut notifications);
    assert!(notifications.messages.is_empty());
    tick_notifications(4000, &mut notifications);
    assert!(notifications.messages.is_empty());
}

#[test]
fn message_timers_saturate() {
    let mut notifications = Notifications::default();
    notifications.push("late".to_string(), i32::MIN);
    notifications.push("long".to_string(), i32::MAX);
    tick_notifications(-5, &mut notifications);
    assert_eq!(shown(&notifications), vec![("long".to_string(), i32::MAX)]);
    tick_notifications(i32::MIN, &mut notifications);
    assert_eq!(shown(&notifications), vec![("long".to_string(), i32::MAX)]);
    tick_notifications(i32::MAX, &mut notifications);
    assert!(notifications.messages.is_empty());
}
