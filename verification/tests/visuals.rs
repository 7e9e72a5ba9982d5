use cascade::color::{ColorPalette, Rgba};
use cascade::math::calculate_scale_position_by_angle;
use cascade::state::{
    handle_game_loop_input, CreativeModeState, DemoLevelState, GameState, MinimalGameState,
};

#[test]
fn palette_enumerates_every_colour_once() {
    let all = ColorPalette::enumerate();
    assert_eq!(5, all.len());
    assert_eq!(
        vec![
            ColorPalette::BlueViolet,
            ColorPalette::CornflowerBlue,
            ColorPalette::DarkOrchid,
            ColorPalette::Indigo,
            ColorPalette::RebeccaPurple,
        ],
        all
    );
}

#[test]
fn palette_channel_values() {
    assert_eq!(
        Rgba { red: 138, green: 43, blue: 226, alpha: 255 },
        ColorPalette::BlueViolet.to_rgba()
    );
    assert_eq!(
        Rgba { red: 100, green: 149, blue: 237, alpha: 255 },
        ColorPalette::CornflowerBlue.to_rgba()
    );
    assert_eq!(
        Rgba { red: 102, green: 51, blue: 153, alpha: 255 },
        ColorPalette::RebeccaPurple.to_rgba()
    );
    assert_eq!(ColorPalette::BlueViolet, ColorPalette::default());
}

#[test]
fn palette_from_hash_mapping() {
    assert_eq!(ColorPalette::CornflowerBlue, ColorPalette::palette_from_hash(1));
    assert_eq!(ColorPalette::DarkOrchid, ColorPalette::palette_from_hash(2));
    assert_eq!(ColorPalette::Indigo, ColorPalette::palette_from_hash(3));
    assert_eq!(ColorPalette::RebeccaPurple, ColorPalette::palette_from_hash(4));
    assert_eq!(ColorPalette::BlueViolet, ColorPalette::palette_from_hash(0));
    assert_eq!(ColorPalette::BlueViolet, ColorPalette::palette_from_hash(9));
}

#[test]
fn quarter_turn_scale_positions() {
    // a quarter turn across scale sizes one to ten
    let expected = [1u8, 1, 1, 1, 2, 2, 2, 2, 3, 3];
    for size in 1u8..=10 {
        assert_eq!(
            expected[(size - 1) as usize],
            calculate_scale_position_by_angle(250_000, size)
        );
    }
}

#[test]
fn eighth_turn_scale_positions() {
    // an eighth of a turn across scale sizes one to ten
    let expected = [1u8, 1, 1, 1, 1, 1, 1, 1, 2, 2];
    for size in 1u8..=10 {
        assert_eq!(
            expected[(size - 1) as usize],
            calculate_scale_position_by_angle(125_000, size)
        );
    }
}

#[test]
fn angle_zero_selects_the_root() {
    for size in 1u8..=12 {
        assert_eq!(0, calculate_scale_position_by_angle(0, size));
    }
    // just short of a full turn selects the last part
    assert_eq!(8, calculate_scale_position_by_angle(999_999, 8));
}

#[test]
fn full_circle_on_an_eight_part_scale() {
    // angles swept around the circle on a scale of eight parts, in
    // millionths of a turn
    let size = 8u8;
    // 12 degrees
    assert_eq!(1, calculate_scale_position_by_angle(33_333, size));
    // 45 degrees
    assert_eq!(1, calculate_scale_position_by_angle(125_000, size));
    // a little past 45 degrees
    assert_eq!(2, calculate_scale_position_by_angle(132_573, size));
    // 90 degrees
    assert_eq!(2, calculate_scale_position_by_angle(250_000, size));
    // 120 degrees
    assert_eq!(3, calculate_scale_position_by_angle(333_333, size));
    // 130 degrees
    assert_eq!(3, calculate_scale_position_by_angle(361_111, size));
    // 140 degrees
    assert_eq!(4, calculate_scale_position_by_angle(388_889, size));
    // 180 degrees
    assert_eq!(4, calculate_scale_position_by_angle(500_000, size));
    // a little past 180 degrees
    assert_eq!(5, calculate_scale_position_by_angle(500_796, size));
    // 270 degrees
    assert_eq!(6, calculate_scale_position_by_angle(750_000, size));
    // just short of a full circle
    assert_eq!(8, calculate_scale_position_by_angle(998_232, size));
}

#[test]
fn minimal_game_state_compute() {
    assert_eq!(
        Some(MinimalGameState::Setup),
        MinimalGameState::compute(GameState::SetupResources)
    );
    assert_eq!(
        Some(MinimalGameState::Setup),
        MinimalGameState::compute(GameState::SetupGameObjects)
    );
    assert_eq!(
        Some(MinimalGameState::Running),
        MinimalGameState::compute(GameState::Build)
    );
    assert_eq!(
        Some(MinimalGameState::Running),
        MinimalGameState::compute(GameState::Execute)
    );
    assert_eq!(
        Some(MinimalGameState::Running),
        MinimalGameState::compute(GameState::Over)
    );
}

#[test]
fn level_states_compute() {
    assert_eq!(
        Some(CreativeModeState::Setup),
        CreativeModeState::compute(GameState::SetupResources)
    );
    assert_eq!(
        Some(CreativeModeState::On),
        CreativeModeState::compute(GameState::Execute)
    );
    assert_eq!(
        Some(CreativeModeState::Off),
        CreativeModeState::compute(GameState::Over)
    );
    assert_eq!(
        Some(DemoLevelState::Setup),
        DemoLevelState::compute(GameState::SetupGameObjects)
    );
    assert_eq!(
        Some(DemoLevelState::On),
        DemoLevelState::compute(GameState::Build)
    );
    assert_eq!(
        Some(DemoLevelState::Off),
        DemoLevelState::compute(GameState::Over)
    );
}

#[test]
fn game_loop_toggle() {
    // nothing placed: the toggle does nothing, whatever the state
    assert_eq!(None, handle_game_loop_input(GameState::Build, true, false));
    // the toggle flips between build and execution
    assert_eq!(
        Some(GameState::Execute),
        handle_game_loop_input(GameState::Build, true, true)
    );
    assert_eq!(
        Some(GameState::Build),
        handle_game_loop_input(GameState::Execute, true, true)
    );
    // without a press, or in other states, nothing happens
    assert_eq!(None, handle_game_loop_input(GameState::Build, false, true));
    assert_eq!(None, handle_game_loop_input(GameState::Over, true, true));
    assert_eq!(
        None,
        handle_game_loop_input(GameState::SetupResources, true, true)
    );
}
