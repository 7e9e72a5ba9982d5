use cascade::music::{
    background_clip, ActivePlayer, BackgroundClip, BackgroundRepetition, NaturalMinorScale, Note,
    Scale, Step,
};

#[test]
fn test() {
    let scale = NaturalMinorScale::new(Note::A);
    assert_eq!(Note::A, scale.get(0));
    assert_eq!(Note::A, scale.get(1));
    assert_eq!(Note::B, scale.get(2));
    assert_eq!(Note::C, scale.get(3));
    assert_eq!(Note::D, scale.get(4));
    assert_eq!(Note::E, scale.get(5));
    assert_eq!(Note::F, scale.get(6));
    assert_eq!(Note::G, scale.get(7));
    assert_eq!(Note::A, scale.get(8));
    assert_eq!(Note::B, scale.get(9));
    assert_eq!(Note::C, scale.get(10));
    assert_eq!(Note::D, scale.get(11));
    assert_eq!(Note::E, scale.get(12));
    assert_eq!(Note::F, scale.get(13));
    assert_eq!(Note::G, scale.get(14));
    assert_eq!(Note::A, scale.get(15));
}

#[test]
fn half_and_whole_steps() {
    assert_eq!(Note::As, Note::A.next(&Step::Half));
    assert_eq!(Note::B, Note::A.next(&Step::Whole));
    assert_eq!(Note::A, Note::Gs.next(&Step::Half));
    assert_eq!(Note::As, Note::Gs.next(&Step::Whole));
    assert_eq!(Note::C, Note::B.next(&Step::Half));
}

#[test]
fn scale_shape() {
    let scale = NaturalMinorScale::new(Note::E);
    assert_eq!(7, scale.size());
    assert_eq!(Note::E, *scale.root());
    assert_eq!(
        vec![
            Step::Whole,
            Step::Half,
            Step::Whole,
            Step::Whole,
            Step::Half,
            Step::Whole
        ],
        scale.steps()
    );
    assert_eq!(Note::E, scale.get(1));
    assert_eq!(Note::Fs, scale.get(2));
    assert_eq!(Note::G, scale.get(3));
}

#[test]
fn active_player_replaces_same_pitch() {
    let mut players = ActivePlayer::new();
    assert_eq!(None, players.note_on(Note::A, 10));
    assert_eq!(None, players.note_on(Note::B, 11));
    // striking the same pitch again hands back the player to silence
    assert_eq!(Some(10), players.note_on(Note::A, 12));
    assert_eq!(Some(12), players.note_on(Note::A, 13));
    assert_eq!(Some(11), players.note_on(Note::B, 14));
    assert_eq!(None, players.note_on(Note::C, 15));
}

#[test]
fn handle_note_played_selects_pitch_by_angle() {
    let scale = NaturalMinorScale::new(Note::A);
    let mut players = ActivePlayer::new();
    // angle zero selects the root
    let (pitch, stopped) = players.handle_note_played(0, &scale, 1);
    assert_eq!(Note::A, pitch);
    assert_eq!(None, stopped);
    // a quarter turn on a 7-degree scale selects ceil(7/4) = degree 2: B
    let (pitch, stopped) = players.handle_note_played(250_000, &scale, 2);
    assert_eq!(Note::B, pitch);
    assert_eq!(None, stopped);
    // the same pitch again replaces its player
    let (pitch, stopped) = players.handle_note_played(250_000, &scale, 3);
    assert_eq!(Note::B, pitch);
    assert_eq!(Some(2), stopped);
}

#[test]
fn background_repetition_cycles() {
    let mut rep = BackgroundRepetition::new();
    assert_eq!(0, rep.get_repeat());
    rep.proceed();
    assert_eq!(1, rep.get_repeat());
    rep.proceed();
    rep.proceed();
    assert_eq!(3, rep.get_repeat());
    rep.proceed();
    assert_eq!(0, rep.get_repeat());
}

#[test]
fn background_clip_choice() {
    assert_eq!(BackgroundClip::Strings1, background_clip(0));
    assert_eq!(BackgroundClip::Strings1, background_clip(1));
    assert_eq!(BackgroundClip::Strings1, background_clip(2));
    assert_eq!(BackgroundClip::Strings2, background_clip(3));
}
