//! The events whose pages the tools open.

use crate::lang::{LangText, LangTextView, Localized};
use crate::text::{chars_of, decimal, decimal_of, same_chars, string_of, trim, trimmed};
use vstd::prelude::*;
use vstd::string::StringExecFns;

verus! {

/// An event with a list page and one page per entry.
#[derive(Debug, Clone, Copy, PartialEq, Eq, Structural)]
pub enum BMSEvent {
    BOFNT,
    BOFTT,
    LetsBMSEdit,
    LetsBMSEdit2,
    LetsBMSEdit3,
    LetsBMSEdit4,
}

impl BMSEvent {
    /// The number by which the event is chosen.
    pub open spec fn number_of(self) -> nat {
        match self {
            BMSEvent::BOFNT => 19,
            BMSEvent::BOFTT => 20,
            BMSEvent::LetsBMSEdit => 101,
            BMSEvent::LetsBMSEdit2 => 102,
            BMSEvent::LetsBMSEdit3 => 103,
            BMSEvent::LetsBMSEdit4 => 104,
        }
    }

    /// The event's name.
    pub open spec fn name_of(self) -> Seq<char> {
        match self {
            BMSEvent::BOFNT => "BOFNT"@,
            BMSEvent::BOFTT => "BOFTT"@,
            BMSEvent::LetsBMSEdit => "LetsBMSEdit"@,
            BMSEvent::LetsBMSEdit2 => "LetsBMSEdit2"@,
            BMSEvent::LetsBMSEdit3 => "LetsBMSEdit3"@,
            BMSEvent::LetsBMSEdit4 => "LetsBMSEdit4"@,
        }
    }

    /// The address of the event's list page.
    pub open spec fn list_url_of(self) -> Seq<char> {
        match self {
            BMSEvent::BOFNT => "https://manbow.nothing.sh/event/event.cgi?action=sp&event=142"@,
            BMSEvent::BOFTT => "https://manbow.nothing.sh/event/event.cgi?action=sp&event=146"@,
            BMSEvent::LetsBMSEdit => "https://venue.bmssearch.net/letsbmsedit"@,
            BMSEvent::LetsBMSEdit2 => "https://venue.bmssearch.net/letsbmsedit2"@,
            BMSEvent::LetsBMSEdit3 => "https://venue.bmssearch.net/letsbmsedit3"@,
            BMSEvent::LetsBMSEdit4 => "https://venue.bmssearch.net/letsbmsedit4"@,
        }
    }

    /// What stands before the entry's number in the address of an entry's page.
    pub open spec fn work_url_head(self) -> Seq<char> {
        match self {
            BMSEvent::BOFNT => "https://manbow.nothing.sh/event/event.cgi?action=More_def&num="@,
            BMSEvent::BOFTT => "https://manbow.nothing.sh/event/event.cgi?action=More_def&num="@,
            BMSEvent::LetsBMSEdit => "https://venue.bmssearch.net/letsbmsedit/"@,
            BMSEvent::LetsBMSEdit2 => "https://venue.bmssearch.net/letsbmsedit2/"@,
            BMSEvent::LetsBMSEdit3 => "https://venue.bmssearch.net/letsbmsedit3/"@,
            BMSEvent::LetsBMSEdit4 => "https://venue.bmssearch.net/letsbmsedit4/"@,
        }
    }

    /// What stands after the entry's number in the address of an entry's page.
    pub open spec fn work_url_tail(self) -> Seq<char> {
        match self {
            BMSEvent::BOFNT => "&event=142"@,
            BMSEvent::BOFTT => "&event=146"@,
            _ => ""@,
        }
    }

    /// The address of the page of the entry with number `work_num`.
    pub open spec fn work_url_of(self, work_num: nat) -> Seq<char> {
        self.work_url_head() + decimal(work_num) + self.work_url_tail()
    }

    /// The event chosen by `s`, which names it or gives its number, with
    /// white space around either.
    pub open spec fn parse(s: Seq<char>) -> Option<BMSEvent> {
        let t = trim(s);
        if t == "19"@ || t == "BOFNT"@ {
            Some(BMSEvent::BOFNT)
        } else if t == "20"@ || t == "BOFTT"@ {
            Some(BMSEvent::BOFTT)
        } else if t == "101"@ || t == "LetsBMSEdit"@ {
            Some(BMSEvent::LetsBMSEdit)
        } else if t == "102"@ || t == "LetsBMSEdit2"@ {
            Some(BMSEvent::LetsBMSEdit2)
        } else if t == "103"@ || t == "LetsBMSEdit3"@ {
            Some(BMSEvent::LetsBMSEdit3)
        } else if t == "104"@ || t == "LetsBMSEdit4"@ {
            Some(BMSEvent::LetsBMSEdit4)
        } else {
            None
        }
    }

    /// The number by which the event is chosen.
    pub fn number(&self) -> (r: u32)
        ensures
            r == self.number_of(),
    {
        match self {
            BMSEvent::BOFNT => 19,
            BMSEvent::BOFTT => 20,
            BMSEvent::LetsBMSEdit => 101,
            BMSEvent::LetsBMSEdit2 => 102,
            BMSEvent::LetsBMSEdit3 => 103,
            BMSEvent::LetsBMSEdit4 => 104,
        }
    }

    /// The event's name.
    pub fn name(&self) -> (r: &'static str)
        ensures
            r@ == self.name_of(),
    {
        match self {
            BMSEvent::BOFNT => "BOFNT",
            BMSEvent::BOFTT => "BOFTT",
            BMSEvent::LetsBMSEdit => "LetsBMSEdit",
            BMSEvent::LetsBMSEdit2 => "LetsBMSEdit2",
            BMSEvent::LetsBMSEdit3 => "LetsBMSEdit3",
            BMSEvent::LetsBMSEdit4 => "LetsBMSEdit4",
        }
    }

    /// Event list page
    pub fn list_url(&self) -> (r: &'static str)
        ensures
            r@ == self.list_url_of(),
    {
        match self {
            BMSEvent::BOFNT => "https://manbow.nothing.sh/event/event.cgi?action=sp&event=142",
            BMSEvent::BOFTT => "https://manbow.nothing.sh/event/event.cgi?action=sp&event=146",
            BMSEvent::LetsBMSEdit => "https://venue.bmssearch.net/letsbmsedit",
            BMSEvent::LetsBMSEdit2 => "https://venue.bmssearch.net/letsbmsedit2",
            BMSEvent::LetsBMSEdit3 => "https://venue.bmssearch.net/letsbmsedit3",
            BMSEvent::LetsBMSEdit4 => "https://venue.bmssearch.net/letsbmsedit4",
        }
    }

    /// Event work details page
    pub fn work_info_url(&self, work_num: u32) -> (r: String)
        ensures
            r@ == self.work_url_of(work_num as nat),
    {
        let head = match self {
            BMSEvent::BOFNT => "https://manbow.nothing.sh/event/event.cgi?action=More_def&num=",
            BMSEvent::BOFTT => "https://manbow.nothing.sh/event/event.cgi?action=More_def&num=",
            BMSEvent::LetsBMSEdit => "https://venue.bmssearch.net/letsbmsedit/",
            BMSEvent::LetsBMSEdit2 => "https://venue.bmssearch.net/letsbmsedit2/",
            BMSEvent::LetsBMSEdit3 => "https://venue.bmssearch.net/letsbmsedit3/",
            BMSEvent::LetsBMSEdit4 => "https://venue.bmssearch.net/letsbmsedit4/",
        };
        let tail = match self {
            BMSEvent::BOFNT => "&event=142",
            BMSEvent::BOFTT => "&event=146",
            _ => "",
        };
        let digits = string_of(&decimal_of(work_num as u64));
        let mut r = String::from_str(head);
        r.append(digits.as_str());
        r.append(tail);
        r
    }

    /// Reads an event's name or number.
    pub fn from_str(s: &str) -> (r: Result<BMSEvent, ()>)
        ensures
            match r {
                Ok(e) => BMSEvent::parse(s@) == Some(e),
                Err(_) => BMSEvent::parse(s@) is None,
            },
    {
        let t = trimmed(&chars_of(s));
        if same_chars(&t, &chars_of("19")) || same_chars(&t, &chars_of("BOFNT")) {
            Ok(BMSEvent::BOFNT)
        } else if same_chars(&t, &chars_of("20")) || same_chars(&t, &chars_of("BOFTT")) {
            Ok(BMSEvent::BOFTT)
        } else if same_chars(&t, &chars_of("101")) || same_chars(&t, &chars_of("LetsBMSEdit")) {
            Ok(BMSEvent::LetsBMSEdit)
        } else if same_chars(&t, &chars_of("102")) || same_chars(&t, &chars_of("LetsBMSEdit2")) {
            Ok(BMSEvent::LetsBMSEdit2)
        } else if same_chars(&t, &chars_of("103")) || same_chars(&t, &chars_of("LetsBMSEdit3")) {
            Ok(BMSEvent::LetsBMSEdit3)
        } else if same_chars(&t, &chars_of("104")) || same_chars(&t, &chars_of("LetsBMSEdit4")) {
            Ok(BMSEvent::LetsBMSEdit4)
        } else {
            Err(())
        }
    }
}

impl Localized for BMSEvent {
    open spec fn zh_text(&self) -> LangTextView {
        match self {
            BMSEvent::BOFNT => LangTextView { name: "BOFNT"@, desc: "BMS 赛事 BOFNT"@ },
            BMSEvent::BOFTT => LangTextView { name: "BOFTT"@, desc: "BMS 赛事 BOFTT"@ },
            BMSEvent::LetsBMSEdit => LangTextView {
                name: "Let's BMS Edit"@,
                desc: "BMS 编辑活动（第一期）"@,
            },
            BMSEvent::LetsBMSEdit2 => LangTextView {
                name: "Let's BMS Edit 2"@,
                desc: "BMS 编辑活动（第二期）"@,
            },
            BMSEvent::LetsBMSEdit3 => LangTextView {
                name: "Let's BMS Edit 3"@,
                desc: "BMS 编辑活动（第三期）"@,
            },
            BMSEvent::LetsBMSEdit4 => LangTextView {
                name: "Let's BMS Edit 4"@,
                desc: "BMS 编辑活动（第四期）"@,
            },
        }
    }

    open spec fn en_text(&self) -> LangTextView {
        match self {
            BMSEvent::BOFNT => LangTextView { name: "BOFNT"@, desc: "BMS Event BOFNT"@ },
            BMSEvent::BOFTT => LangTextView { name: "BOFTT"@, desc: "BMS Event BOFTT"@ },
            BMSEvent::LetsBMSEdit => LangTextView {
                name: "Let's BMS Edit"@,
                desc: "BMS Edit Event (Season 1)"@,
            },
            BMSEvent::LetsBMSEdit2 => LangTextView {
                name: "Let's BMS Edit 2"@,
                desc: "BMS Edit Event (Season 2)"@,
            },
            BMSEvent::LetsBMSEdit3 => LangTextView {
                name: "Let's BMS Edit 3"@,
                desc: "BMS Edit Event (Season 3)"@,
            },
            BMSEvent::LetsBMSEdit4 => LangTextView {
                name: "Let's BMS Edit 4"@,
                desc: "BMS Edit Event (Season 4)"@,
            },
        }
    }

    fn zh(&self) -> (r: LangText) {
        match self {
            BMSEvent::BOFNT => LangText { name: "BOFNT", desc: "BMS 赛事 BOFNT" },
            BMSEvent::BOFTT => LangText { name: "BOFTT", desc: "BMS 赛事 BOFTT" },
            BMSEvent::LetsBMSEdit => LangText { name: "Let's BMS Edit", desc: "BMS 编辑活动（第一期）" },
            BMSEvent::LetsBMSEdit2 => LangText {
                name: "Let's BMS Edit 2",
                desc: "BMS 编辑活动（第二期）",
            },
            BMSEvent::LetsBMSEdit3 => LangText {
                name: "Let's BMS Edit 3",
                desc: "BMS 编辑活动（第三期）",
            },
            BMSEvent::LetsBMSEdit4 => LangText {
                name: "Let's BMS Edit 4",
                desc: "BMS 编辑活动（第四期）",
            },
        }
    }

    fn en(&self) -> (r: LangText) {
        match self {
            BMSEvent::BOFNT => LangText { name: "BOFNT", desc: "BMS Event BOFNT" },
            BMSEvent::BOFTT => LangText { name: "BOFTT", desc: "BMS Event BOFTT" },
            BMSEvent::LetsBMSEdit => LangText {
                name: "Let's BMS Edit",
                desc: "BMS Edit Event (Season 1)",
            },
            BMSEvent::LetsBMSEdit2 => LangText {
                name: "Let's BMS Edit 2",
                desc: "BMS Edit Event (Season 2)",
            },
            BMSEvent::LetsBMSEdit3 => LangText {
                name: "Let's BMS Edit 3",
                desc: "BMS Edit Event (Season 3)",
            },
            BMSEvent::LetsBMSEdit4 => LangText {
                name: "Let's BMS Edit 4",
                desc: "BMS Edit Event (Season 4)",
            },
        }
    }
}

} // verus!
