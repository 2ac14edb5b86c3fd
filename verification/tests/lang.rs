use be_music_cabinet::command::CommandCategory;
use be_music_cabinet::event::BMSEvent;
use be_music_cabinet::lang::{Language, Localized};

#[test]
fn events_have_labels_in_both_languages() {
    let zh = BMSEvent::LetsBMSEdit3.label_for(Language::Chinese);
    assert_eq!(zh.name, "Let's BMS Edit 3");
    assert_eq!(zh.desc, "BMS 编辑活动（第三期）");
    let en = BMSEvent::LetsBMSEdit3.label_for(Language::English);
    assert_eq!(en.name, "Let's BMS Edit 3");
    assert_eq!(en.desc, "BMS Edit Event (Season 3)");
    assert_eq!(BMSEvent::BOFNT.zh().desc, "BMS 赛事 BOFNT");
    assert_eq!(BMSEvent::BOFTT.en().desc, "BMS Event BOFTT");
    assert_eq!(BMSEvent::LetsBMSEdit.en().name, "Let's BMS Edit");
    assert_eq!(BMSEvent::LetsBMSEdit2.zh().desc, "BMS 编辑活动（第二期）");
    assert_eq!(BMSEvent::LetsBMSEdit4.en().desc, "BMS Edit Event (Season 4)");
}

#[test]
fn command_groups_have_labels_in_both_languages() {
    let expected = [
        ("Work", "作品目录", "Work directory related operations"),
        ("Root", "根目录", "Root directory related operations"),
        ("Pack", "打包处理", "Pack processing related operations"),
        ("Bms", "BMS 文件", "BMS file related operations"),
        ("Fs", "文件系统", "File system related operations"),
        ("RootEvent", "根目录事件", "Root directory event related operations"),
        ("Rawpack", "原始包处理", "Raw pack processing related operations"),
    ];
    for (group, (name, zh_name, en_desc)) in CommandCategory::all().iter().zip(expected) {
        assert_eq!(group.name(), name);
        assert_eq!(group.label_for(Language::English).name, name);
        assert_eq!(group.label_for(Language::English).desc, en_desc);
        assert_eq!(group.label_for(Language::Chinese).name, zh_name);
        assert_eq!(group.zh().desc, format!("{zh_name}相关操作"));
    }
}
