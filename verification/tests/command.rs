use be_music_cabinet::command::CommandCategory;

#[test]
fn every_group_is_offered_once() {
    let all = CommandCategory::all();
    assert_eq!(
        all,
        vec![
            CommandCategory::Work,
            CommandCategory::Root,
            CommandCategory::Pack,
            CommandCategory::Bms,
            CommandCategory::Fs,
            CommandCategory::RootEvent,
            CommandCategory::Rawpack,
        ]
    );
    let names: Vec<&str> = all.iter().map(|c| c.name()).collect();
    assert_eq!(names, vec!["Work", "Root", "Pack", "Bms", "Fs", "RootEvent", "Rawpack"]);
}
