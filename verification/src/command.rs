//! The groups of commands the tools offer.

use crate::lang::{LangText, LangTextView, Localized};
use vstd::prelude::*;

verus! {

/// A group of commands.
#[derive(Debug, Clone, Copy, PartialEq, Eq, Structural)]
pub enum CommandCategory {
    Work,
    Root,
    Pack,
    Bms,
    Fs,
    RootEvent,
    Rawpack,
}

impl CommandCategory {
    /// Every group, in the order in which they are offered.
    pub open spec fn every() -> Seq<CommandCategory> {
        seq![
            CommandCategory::Work,
            CommandCategory::Root,
            CommandCategory::Pack,
            CommandCategory::Bms,
            CommandCategory::Fs,
            CommandCategory::RootEvent,
            CommandCategory::Rawpack,
        ]
    }

    /// Every group, in the order in which they are offered.
    pub fn all() -> (r: Vec<CommandCategory>)
        ensures
            r@ == CommandCategory::every(),
    {
        let mut r: Vec<CommandCategory> = Vec::new();
        r.push(CommandCategory::Work);
        r.push(CommandCategory::Root);
        r.push(CommandCategory::Pack);
        r.push(CommandCategory::Bms);
        r.push(CommandCategory::Fs);
        r.push(CommandCategory::RootEvent);
        r.push(CommandCategory::Rawpack);
        proof {
            assert(r@ =~= CommandCategory::every());
        }
        r
    }

    /// The group's name.
    pub fn name(&self) -> (r: &'static str)
        ensures
            r@ == match self {
                CommandCategory::Work => "Work"@,
                CommandCategory::Root => "Root"@,
                CommandCategory::Pack => "Pack"@,
                CommandCategory::Bms => "Bms"@,
                CommandCategory::Fs => "Fs"@,
                CommandCategory::RootEvent => "RootEvent"@,
                CommandCategory::Rawpack => "Rawpack"@,
            },
    {
        match self {
            CommandCategory::Work => "Work",
            CommandCategory::Root => "Root",
            CommandCategory::Pack => "Pack",
            CommandCategory::Bms => "Bms",
            CommandCategory::Fs => "Fs",
            CommandCategory::RootEvent => "RootEvent",
            CommandCategory::Rawpack => "Rawpack",
        }
    }
}

/// Every group is offered, and none twice.
pub proof fn law_all_categories_once(c: CommandCategory)
    ensures
        CommandCategory::every().contains(c),
        CommandCategory::every().no_duplicates(),
{
    let all = CommandCategory::every();
    match c {
        CommandCategory::Work => assert(all[0] == c),
        CommandCategory::Root => assert(all[1] == c),
        CommandCategory::Pack => assert(all[2] == c),
        CommandCategory::Bms => assert(all[3] == c),
        CommandCategory::Fs => assert(all[4] == c),
        CommandCategory::RootEvent => assert(all[5] == c),
        CommandCategory::Rawpack => assert(all[6] == c),
    }
}

impl Localized for CommandCategory {
    open spec fn zh_text(&self) -> LangTextView {
        match self {
            CommandCategory::Work => LangTextView { name: "作品目录"@, desc: "作品目录相关操作"@ },
            CommandCategory::Root => LangTextView { name: "根目录"@, desc: "根目录相关操作"@ },
            CommandCategory::Pack => LangTextView { name: "打包处理"@, desc: "打包处理相关操作"@ },
            CommandCategory::Bms => LangTextView { name: "BMS 文件"@, desc: "BMS 文件相关操作"@ },
            CommandCategory::Fs => LangTextView { name: "文件系统"@, desc: "文件系统相关操作"@ },
            CommandCategory::RootEvent => LangTextView {
                name: "根目录事件"@,
                desc: "根目录事件相关操作"@,
            },
            CommandCategory::Rawpack => LangTextView {
                name: "原始包处理"@,
                desc: "原始包处理相关操作"@,
            },
        }
    }

    open spec fn en_text(&self) -> LangTextView {
        match self {
            CommandCategory::Work => LangTextView {
                name: "Work"@,
                desc: "Work directory related operations"@,
            },
            CommandCategory::Root => LangTextView {
                name: "Root"@,
                desc: "Root directory related operations"@,
            },
            CommandCategory::Pack => LangTextView {
                name: "Pack"@,
                desc: "Pack processing related operations"@,
            },
            CommandCategory::Bms => LangTextView {
                name: "Bms"@,
                desc: "BMS file related operations"@,
            },
            CommandCategory::Fs => LangTextView {
                name: "Fs"@,
                desc: "File system related operations"@,
            },
            CommandCategory::RootEvent => LangTextView {
                name: "RootEvent"@,
                desc: "Root directory event related operations"@,
            },
            CommandCategory::Rawpack => LangTextView {
                name: "Rawpack"@,
                desc: "Raw pack processing related operations"@,
            },
        }
    }

    fn zh(&self) -> (r: LangText) {
        match self {
            CommandCategory::Work => LangText { name: "作品目录", desc: "作品目录相关操作" },
            CommandCategory::Root => LangText { name: "根目录", desc: "根目录相关操作" },
            CommandCategory::Pack => LangText { name: "打包处理", desc: "打包处理相关操作" },
            CommandCategory::Bms => LangText { name: "BMS 文件", desc: "BMS 文件相关操作" },
            CommandCategory::Fs => LangText { name: "文件系统", desc: "文件系统相关操作" },
            CommandCategory::RootEvent => LangText {
                name: "根目录事件",
                desc: "根目录事件相关操作",
            },
            CommandCategory::Rawpack => LangText {
                name: "原始包处理",
                desc: "原始包处理相关操作",
            },
        }
    }

    fn en(&self) -> (r: LangText) {
        match self {
            CommandCategory::Work => LangText {
                name: "Work",
                desc: "Work directory related operations",
            },
            CommandCategory::Root => LangText {
                name: "Root",
                desc: "Root directory related operations",
            },
            CommandCategory::Pack => LangText {
                name: "Pack",
                desc: "Pack processing related operations",
            },
            CommandCategory::Bms => LangText { name: "Bms", desc: "BMS file related operations" },
            CommandCategory::Fs => LangText { name: "Fs", desc: "File system related operations" },
            CommandCategory::RootEvent => LangText {
                name: "RootEvent",
                desc: "Root directory event related operations",
            },
            CommandCategory::Rawpack => LangText {
                name: "Rawpack",
                desc: "Raw pack processing related operations",
            },
        }
    }
}

} // verus!
