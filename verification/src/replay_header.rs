//! The header of a flattened replay: when and where the match was played,
//! and what it is called.

use crate::dates::{parse_date_time, parsed_date_time};
use crate::replay::{Property, PropertyView, ReplayData, ReplayDataView};
use chrono::{NaiveDateTime, ParseError};
use vstd::prelude::*;

verus! {

/// The format of a replay's `Date` entry.
pub const DATE_FORMAT: &'static str = "%Y-%m-%d %H-%M-%S";

/// What is known of a match from the header of its replay.
#[derive(Debug)]
pub struct ReplayHeader {
    /// When the match was played.
    pub date: Option<NaiveDateTime>,
    pub game_type: Option<String>,
    /// The name of the map, as the replay gives it.
    pub map: Option<String>,
    /// The name of the replay.
    pub name: Option<String>,
}

/// What a [`ReplayHeader`] holds.
pub struct ReplayHeaderView {
    pub date: Option<NaiveDateTime>,
    pub game_type: Option<Seq<char>>,
    pub map: Option<Seq<char>>,
    pub name: Option<Seq<char>>,
}

/// The view of a string that may be absent.
pub open spec fn text_view(text: Option<String>) -> Option<Seq<char>> {
    match text {
        Some(text) => Some(text@),
        None => None,
    }
}

impl View for ReplayHeader {
    type V = ReplayHeaderView;

    open spec fn view(&self) -> ReplayHeaderView {
        ReplayHeaderView {
            date: self.date,
            game_type: text_view(self.game_type),
            map: text_view(self.map),
            name: text_view(self.name),
        }
    }
}

/// The text of the last entry of `properties` that is called `name` and
/// holds a text.
pub open spec fn last_text(properties: Seq<PropertyView>, name: Seq<char>) -> Option<Seq<char>>
    decreases properties.len(),
{
    if properties.len() == 0 {
        None
    } else if properties.last().name == name && properties.last().text is Some {
        properties.last().text
    } else {
        last_text(properties.drop_last(), name)
    }
}

/// The date of an entry called `Date`, where the entry holds a text and the
/// text is a date in [`DATE_FORMAT`].
pub open spec fn date_of(property: PropertyView) -> Option<NaiveDateTime> {
    if property.name == "Date"@ && property.text is Some {
        parsed_date_time(property.text.unwrap(), DATE_FORMAT@)
    } else {
        None
    }
}

/// The date of the last entry of `properties` that has one.
pub open spec fn last_date(properties: Seq<PropertyView>) -> Option<NaiveDateTime>
    decreases properties.len(),
{
    if properties.len() == 0 {
        None
    } else if date_of(properties.last()) is Some {
        date_of(properties.last())
    } else {
        last_date(properties.drop_last())
    }
}

impl ReplayHeaderView {
    /// The header of a replay: its game type, and of the date, the map and
    /// the name each the last that the header's entries give.
    pub open spec fn of(replay: ReplayDataView) -> ReplayHeaderView {
        ReplayHeaderView {
            date: last_date(replay.properties),
            game_type: Some(replay.game_type),
            map: last_text(replay.properties, "MapName"@),
            name: last_text(replay.properties, "ReplayName"@),
        }
    }

    /// This header after `parsed`, the outcome of reading a date, has been
    /// taken in: a date replaces the one held, a failure changes nothing.
    pub open spec fn dated(self, parsed: Option<NaiveDateTime>) -> ReplayHeaderView {
        ReplayHeaderView { date: if parsed is Some { parsed } else { self.date }, ..self }
    }

    /// This header after one entry has been taken in.
    pub open spec fn recorded(self, property: PropertyView) -> ReplayHeaderView {
        if property.text is None {
            self
        } else if property.name == "Date"@ {
            self.dated(date_of(property))
        } else if property.name == "MapName"@ {
            ReplayHeaderView { map: property.text, ..self }
        } else if property.name == "ReplayName"@ {
            ReplayHeaderView { name: property.text, ..self }
        } else {
            self
        }
    }
}

/// The three entry names that a header reads differ from each other.
pub proof fn lemma_entry_names_differ()
    ensures
        "Date"@ != "MapName"@,
        "Date"@ != "ReplayName"@,
        "MapName"@ != "ReplayName"@,
{
    reveal_strlit("Date");
    reveal_strlit("MapName");
    reveal_strlit("ReplayName");
    assert("Date"@.len() == 4);
    assert("MapName"@.len() == 7);
    assert("ReplayName"@.len() == 10);
}

impl Default for ReplayHeader {
    fn default() -> (header: ReplayHeader)
        ensures
            header@ == ReplayHeader::default_view(),
    {
        ReplayHeader { date: None, game_type: None, map: None, name: None }
    }
}

impl ReplayHeader {
    /// A header of which nothing is known.
    pub open spec fn default_view() -> ReplayHeaderView {
        ReplayHeaderView { date: None, game_type: None, map: None, name: None }
    }

    /// Takes in the outcome of reading a date: a date replaces the one held,
    /// a failure changes nothing.
    pub fn set_date(&mut self, parsed: Result<NaiveDateTime, ParseError>)
        ensures
            final(self)@ == old(self)@.dated(
                match parsed {
                    Ok(date) => Some(date),
                    Err(_) => None,
                },
            ),
    {
        match parsed {
            Ok(date) => {
                self.date = Some(date);
            },
            Err(_) => {},
        }
    }

    /// Takes in one entry of a replay's header. An entry called `Date`,
    /// `MapName` or `ReplayName` that holds a text sets the date, the map or
    /// the name; a date that cannot be read, and any other entry, changes
    /// nothing.
    pub fn record(&mut self, property: &Property)
        ensures
            final(self)@ == old(self)@.recorded(property@),
    {
        proof {
            lemma_entry_names_differ();
        }
        match &property.text {
            Some(text) => {
                if property.name.as_str().eq("Date") {
                    let parsed = parse_date_time(text.as_str(), DATE_FORMAT);
                    self.set_date(parsed);
                } else if property.name.as_str().eq("MapName") {
                    self.map = Some(text.clone());
                } else if property.name.as_str().eq("ReplayName") {
                    self.name = Some(text.clone());
                }
            },
            None => {},
        }
    }

    /// The header of a replay.
    pub fn from(replay: &ReplayData) -> (header: ReplayHeader)
        ensures
            header@ == ReplayHeaderView::of(replay@),
    {
        let mut header = ReplayHeader {
            date: None,
            game_type: Some(replay.game_type.clone()),
            map: None,
            name: None,
        };
        let ghost properties = replay@.properties;
        let mut i: usize = 0;
        while i < replay.properties.len()
            invariant
                i <= replay.properties.len(),
                properties == replay@.properties,
                properties.len() == replay.properties.len(),
                header@.game_type == Some(replay.game_type@),
                header@.date == last_date(properties.take(i as int)),
                header@.map == last_text(properties.take(i as int), "MapName"@),
                header@.name == last_text(properties.take(i as int), "ReplayName"@),
            decreases replay.properties.len() - i,
        {
            proof {
                lemma_entry_names_differ();
                let before = properties.take(i as int);
                let after = properties.take(i as int + 1);
                assert(after.drop_last() == before);
                assert(after.last() == replay.properties[i as int]@);
            }
            header.record(&replay.properties[i]);
            i += 1;
        }
        proof {
            assert(properties.take(i as int) == properties);
        }
        header
    }
}

} // verus!
