//! What the user chooses before a run: the formats, picked from a menu line by line, and how
//! much is logged.

use vstd::prelude::*;
use crate::render::Format;

verus! {

/// The indent width where none is asked for.
pub const DEFAULT_INDENT: usize = 4;

/// How much is logged.
#[derive(Clone, Copy, PartialEq, Eq, Debug, Structural)]
pub enum LogLevel {
    Error,
    Warn,
    Info,
    Debug,
    Trace,
}

/// The level for a count of `-v` flags: errors only without any, one level more per flag.
pub open spec fn level_of(verbosity: u8) -> LogLevel {
    if verbosity == 0 {
        LogLevel::Error
    } else if verbosity == 1 {
        LogLevel::Warn
    } else if verbosity == 2 {
        LogLevel::Info
    } else if verbosity == 3 {
        LogLevel::Debug
    } else {
        LogLevel::Trace
    }
}

pub fn log_level(verbosity: u8) -> (level: LogLevel)
    ensures
        level == level_of(verbosity),
{
    match verbosity {
        0 => LogLevel::Error,
        1 => LogLevel::Warn,
        2 => LogLevel::Info,
        3 => LogLevel::Debug,
        _ => LogLevel::Trace,
    }
}

/// The format behind a number of the menu.
pub open spec fn entry(number: u64) -> Option<Format> {
    if number == 1 {
        Some(Format::Cs)
    } else if number == 2 {
        Some(Format::Hpp)
    } else if number == 3 {
        Some(Format::Json)
    } else if number == 4 {
        Some(Format::Rs)
    } else {
        None
    }
}

/// The formats of the menu, in the order of their numbers.
pub fn menu() -> (formats: Vec<Format>)
    ensures
        formats@.len() == 4,
        forall|n: u64| 1 <= n <= 4 ==> entry(n) == Some(#[trigger] formats@[n - 1]),
{
    vec![Format::Cs, Format::Hpp, Format::Json, Format::Rs]
}

/// What a line of input asks for.
#[derive(Clone, Copy, PartialEq, Eq, Debug, Structural)]
pub enum Choice {
    /// The selection stands.
    Confirm,
    /// The format is to be taken in if it is out, and out if it is in.
    Toggle(Format),
    /// The line is neither empty nor a number of the menu.
    Invalid,
}

/// What a line asks for, given whether it is blank and the number it spells: a blank line
/// confirms, a number of the menu toggles its format, anything else is invalid.
pub open spec fn choice_of(blank: bool, number: Option<u64>) -> Choice {
    if blank {
        Choice::Confirm
    } else {
        match number {
            Some(n) => match entry(n) {
                Some(format) => Choice::Toggle(format),
                None => Choice::Invalid,
            },
            None => Choice::Invalid,
        }
    }
}

/// Says what a line asks for, given whether it is blank and the number it spells.
pub fn interpret(blank: bool, number: Option<u64>) -> (choice: Choice)
    ensures
        choice == choice_of(blank, number),
{
    if blank {
        return Choice::Confirm;
    }
    match number {
        Some(1) => Choice::Toggle(Format::Cs),
        Some(2) => Choice::Toggle(Format::Hpp),
        Some(3) => Choice::Toggle(Format::Json),
        Some(4) => Choice::Toggle(Format::Rs),
        _ => Choice::Invalid,
    }
}

/// `line` without the white space around it.
pub uninterp spec fn trimmed(line: Seq<char>) -> Seq<char>;

/// The number that `text` spells, where it spells one that fits 64 bits.
pub uninterp spec fn parsed_number(text: Seq<char>) -> Option<u64>;

/// Calls `str::trim`, which removes leading and trailing white space. The contract only
/// names the result.
#[verifier::external_body]
fn trim(line: &str) -> (text: &str)
    ensures
        text@ == trimmed(line@),
{
    line.trim()
}

/// Calls `str::parse` for `u64`. The contract only names the result: `None` stands for
/// every text that `parse` refuses.
#[verifier::external_body]
fn parse_number(text: &str) -> (number: Option<u64>)
    ensures
        number == parsed_number(text@),
{
    match text.parse::<u64>() {
        Ok(n) => Some(n),
        Err(_) => None,
    }
}

/// Reads a line of input: the line is trimmed, and then interpreted.
pub fn read_choice(line: &str) -> (choice: Choice)
    ensures
        choice == choice_of(trimmed(line@).len() == 0, parsed_number(trimmed(line@))),
{
    let text = trim(line);
    if text.is_empty() {
        interpret(true, None)
    } else {
        interpret(false, parse_number(text))
    }
}

/// `items` without `format`.
pub open spec fn without(items: Seq<Format>, format: Format) -> Seq<Format>
    decreases items.len(),
{
    if items.len() == 0 {
        items
    } else {
        let rest = without(items.drop_last(), format);
        if items.last() == format {
            rest
        } else {
            rest.push(items.last())
        }
    }
}

/// `items` after `format` was toggled: without it where they held it, with it at the end
/// where they did not.
pub open spec fn toggled(items: Seq<Format>, format: Format) -> Seq<Format> {
    if items.contains(format) {
        without(items, format)
    } else {
        items.push(format)
    }
}

/// What a selection comes to when it is confirmed: C# alone where nothing is selected.
pub open spec fn settled(items: Seq<Format>) -> Seq<Format> {
    if items.len() == 0 {
        seq![Format::Cs]
    } else {
        items
    }
}

/// `without` holds what the items held, but for the format taken out, and in the same order.
pub proof fn lemma_without(items: Seq<Format>, format: Format)
    ensures
        !without(items, format).contains(format),
        forall|other: Format|
            other != format ==> (#[trigger] without(items, format).contains(other)
                <==> items.contains(other)),
        items.no_duplicates() ==> without(items, format).no_duplicates(),
        without(items, format).len() <= items.len(),
    decreases items.len(),
{
    if items.len() > 0 {
        let head = items.drop_last();
        let rest = without(head, format);
        let last = items.last();
        lemma_without(head, format);
        let result = without(items, format);
        assert forall|other: Format| other != format implies (#[trigger] result.contains(other)
            <==> items.contains(other)) by {
            if items.contains(other) {
                let k = choose|k: int| 0 <= k < items.len() && items[k] == other;
                if k < head.len() {
                    assert(head[k] == other);
                    assert(head.contains(other));
                    assert(rest.contains(other));
                    let j = choose|j: int| 0 <= j < rest.len() && rest[j] == other;
                    assert(result[j] == other);
                } else {
                    assert(last == other);
                    assert(result[rest.len() as int] == other);
                }
            }
            if result.contains(other) {
                let j = choose|j: int| 0 <= j < result.len() && result[j] == other;
                if j < rest.len() {
                    assert(rest[j] == other);
                    assert(rest.contains(other));
                    assert(head.contains(other));
                    let k = choose|k: int| 0 <= k < head.len() && head[k] == other;
                    assert(items[k] == other);
                } else {
                    assert(items[items.len() - 1] == other);
                }
            }
        }
        if result.contains(format) {
            let j = choose|j: int| 0 <= j < result.len() && result[j] == format;
            if j < rest.len() {
                assert(rest[j] == format);
                assert(rest.contains(format));
            }
        }
        if items.no_duplicates() {
            assert forall|i: int, j: int| 0 <= i < head.len() && 0 <= j < head.len() && i
                != j implies head[i] != head[j] by {
                assert(items[i] == head[i] && items[j] == head[j]);
            }
            if last != format {
                if rest.contains(last) {
                    assert(head.contains(last));
                    let k = choose|k: int| 0 <= k < head.len() && head[k] == last;
                    assert(items[k] == items[items.len() - 1]);
                }
                assert forall|i: int, j: int| 0 <= i < result.len() && 0 <= j < result.len()
                    && i != j implies result[i] != result[j] by {
                    if i < rest.len() && j < rest.len() {
                        assert(rest[i] == result[i] && rest[j] == result[j]);
                    } else if i < rest.len() {
                        assert(rest[i] == result[i]);
                        assert(rest.contains(result[i]));
                    } else if j < rest.len() {
                        assert(rest[j] == result[j]);
                        assert(rest.contains(result[j]));
                    }
                }
            }
        }
    }
}

/// Toggling a format changes whether it is selected, and nothing else; a selection without
/// repetitions stays without.
pub proof fn lemma_toggled(items: Seq<Format>, format: Format)
    ensures
        toggled(items, format).contains(format) <==> !items.contains(format),
        forall|other: Format|
            other != format ==> (#[trigger] toggled(items, format).contains(other)
                <==> items.contains(other)),
        items.no_duplicates() ==> toggled(items, format).no_duplicates(),
{
    lemma_without(items, format);
    if !items.contains(format) {
        let result = items.push(format);
        assert(result[items.len() as int] == format);
        assert forall|other: Format| other != format implies (#[trigger] result.contains(other)
            <==> items.contains(other)) by {
            if items.contains(other) {
                let k = choose|k: int| 0 <= k < items.len() && items[k] == other;
                assert(result[k] == other);
            }
            if result.contains(other) {
                let k = choose|k: int| 0 <= k < result.len() && result[k] == other;
                assert(items[k] == other);
            }
        }
        if items.no_duplicates() {
            assert forall|i: int, j: int| 0 <= i < result.len() && 0 <= j < result.len() && i
                != j implies result[i] != result[j] by {
                if i < items.len() && j < items.len() {
                    assert(items[i] == result[i] && items[j] == result[j]);
                } else if i < items.len() {
                    assert(items[i] == result[i]);
                } else if j < items.len() {
                    assert(items[j] == result[j]);
                }
            }
        }
    }
}

/// The formats selected so far, in the order in which they were taken in.
#[derive(Debug)]
pub struct Selection {
    pub chosen: Vec<Format>,
}

impl View for Selection {
    type V = Seq<Format>;

    open spec fn view(&self) -> Seq<Format> {
        self.chosen@
    }
}

impl Selection {
    /// The selection that the menu starts with: C# and JSON.
    pub fn initial() -> (selection: Selection)
        ensures
            selection@ == seq![Format::Cs, Format::Json],
    {
        Selection { chosen: vec![Format::Cs, Format::Json] }
    }

    /// Whether `format` is selected.
    pub fn holds(&self, format: Format) -> (held: bool)
        ensures
            held == self@.contains(format),
    {
        let mut i: usize = 0;
        while i < self.chosen.len()
            invariant
                i <= self.chosen@.len(),
                forall|k: int| 0 <= k < i ==> self.chosen@[k] != format,
            decreases self.chosen@.len() - i,
        {
            if self.chosen[i] == format {
                return true;
            }
            i += 1;
        }
        false
    }

    /// Takes `format` in if it is out, and out if it is in.
    pub fn toggle(&mut self, format: Format)
        ensures
            final(self)@ == toggled(old(self)@, format),
    {
        if !self.holds(format) {
            self.chosen.push(format);
            return;
        }
        let mut kept: Vec<Format> = Vec::new();
        let mut i: usize = 0;
        while i < self.chosen.len()
            invariant
                i <= self.chosen@.len(),
                kept@ == without(self.chosen@.take(i as int), format),
            decreases self.chosen@.len() - i,
        {
            let item = self.chosen[i];
            proof {
                let upto = self.chosen@.take(i + 1);
                assert(upto.drop_last() =~= self.chosen@.take(i as int));
                assert(upto.last() == item);
            }
            if item != format {
                kept.push(item);
            }
            i += 1;
        }
        assert(self.chosen@.take(i as int) =~= self.chosen@);
        self.chosen = kept;
    }

    /// Applies what a line asked for, and says whether the selection is confirmed.
    pub fn apply(&mut self, choice: Choice) -> (confirmed: bool)
        ensures
            confirmed == (choice == Choice::Confirm),
            final(self)@ == match choice {
                Choice::Toggle(format) => toggled(old(self)@, format),
                _ => old(self)@,
            },
    {
        match choice {
            Choice::Confirm => true,
            Choice::Toggle(format) => {
                self.toggle(format);
                false
            },
            Choice::Invalid => false,
        }
    }

    /// The formats to render once the selection is confirmed.
    pub fn finish(&self) -> (formats: Vec<Format>)
        ensures
            formats@ == settled(self@),
    {
        if self.chosen.len() == 0 {
            vec![Format::Cs]
        } else {
            let mut formats: Vec<Format> = Vec::new();
            let mut i: usize = 0;
            while i < self.chosen.len()
                invariant
                    i <= self.chosen@.len(),
                    formats@ == self.chosen@.take(i as int),
                decreases self.chosen@.len() - i,
            {
                formats.push(self.chosen[i]);
                assert(formats@ =~= self.chosen@.take(i + 1));
                i += 1;
            }
            assert(self.chosen@.take(i as int) =~= self.chosen@);
            formats
        }
    }
}

} // verus!
