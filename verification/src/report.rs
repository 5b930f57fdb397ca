//! Putting the report together: every unit parsed, and every message under
//! the name of the part that it comes from.

use vstd::prelude::*;
use vstd::string::*;
use crate::compilation_unit_parser::{unit_report, CompilationUnitView};
use crate::debug_entry::UnitData;
use crate::die_extensions::ParsingError;
use crate::text::{decimal, decimal_text, digit_char};
use crate::types::data_structures::{text_views, CompilationUnit, DWARFDebugInformation};
use crate::types::rust_type::{RustType, RustTypeId};
use crate::ParsingOptions;

verus! {

/// The value of a unit of which nothing is known yet.
pub open spec fn blank_unit() -> CompilationUnitView {
    CompilationUnitView {
        methods: Seq::empty(),
        subprograms: Seq::empty(),
        ranges: Seq::empty(),
        line_number_info: Seq::empty(),
        parsing_errors: Seq::empty(),
    }
}

/// What parsing one unit from nothing gives.
pub open spec fn fresh_report(unit: UnitData, options: ParsingOptions) -> Result<
    CompilationUnitView,
    Seq<char>,
> {
    unit_report(unit, options.extract_variables, options.demangle, blank_unit())
}

/// Parses every unit, in order. The first unit that cannot be parsed at all
/// ends the run with its error.
pub fn parse_compilation_units<'a>(options: &'a ParsingOptions, units: &Vec<UnitData>) -> (r: Result<
    Vec<CompilationUnit<'a>>,
    ParsingError,
>)
    ensures
        match r {
            Ok(parsed) => parsed@.len() == units@.len() && forall|i: int|
                0 <= i < units@.len() ==> fresh_report(units@[i], *options) == Ok::<
                    CompilationUnitView,
                    Seq<char>,
                >((#[trigger] parsed@[i])@) && parsed@[i].options == options,
            Err(e) => exists|i: int|
                0 <= i < units@.len() && #[trigger] fresh_report(units@[i], *options) == Err::<
                    CompilationUnitView,
                    Seq<char>,
                >(e@) && forall|j: int| 0 <= j < i ==> (#[trigger] fresh_report(
                    units@[j],
                    *options,
                )) is Ok,
        },
{
    let mut parsed: Vec<CompilationUnit<'a>> = Vec::new();
    let mut i: usize = 0;
    while i < units.len()
        invariant
            i <= units.len(),
            parsed@.len() == i,
            forall|k: int|
                0 <= k < i ==> fresh_report(units@[k], *options) == Ok::<
                    CompilationUnitView,
                    Seq<char>,
                >((#[trigger] parsed@[k])@) && parsed@[k].options == options,
        decreases units.len() - i,
    {
        let mut unit = CompilationUnit::new(options);
        match unit.parse_compilation_unit(&units[i]) {
            Ok(_) => {},
            Err(e) => {
                proof {
                    let at = i as int;
                    assert(fresh_report(units@[at], *options) == Err::<
                        CompilationUnitView,
                        Seq<char>,
                    >(e@));
                    assert forall|j: int| 0 <= j < at implies (#[trigger] fresh_report(
                        units@[j],
                        *options,
                    )) is Ok by {
                        assert(fresh_report(units@[j], *options) == Ok::<
                            CompilationUnitView,
                            Seq<char>,
                        >(parsed@[j]@));
                    }
                }
                return Err(e);
            },
        }
        parsed.push(unit);
        i += 1;
    }
    Ok(parsed)
}

/// Texts with a text put before each.
pub open spec fn prefixed(prefix: Seq<char>, texts: Seq<Seq<char>>) -> Seq<Seq<char>> {
    texts.map_values(|t: Seq<char>| prefix + t)
}

/// The messages of the units, unit by unit, each under the name of this
/// part.
pub open spec fn unit_messages(units: Seq<CompilationUnit>) -> Seq<Seq<char>>
    decreases units.len(),
{
    if units.len() == 0 {
        Seq::empty()
    } else {
        unit_messages(units.drop_last()) + prefixed(
            "Compilation Unit Parsing Error: "@,
            text_views(units.last().parsing_errors@),
        )
    }
}

/// All messages of a run: those of the units, then those of the type
/// resolver, each under the name of its part.
pub open spec fn all_messages(units: Seq<CompilationUnit>, type_errors: Seq<String>) -> Seq<
    Seq<char>,
> {
    unit_messages(units) + prefixed("Type Parsing Error: "@, text_views(type_errors))
}

fn push_prefixed(prefix: &str, texts: &Vec<String>, into: &mut Vec<String>)
    ensures
        text_views(final(into)@) == text_views(old(into)@) + prefixed(prefix@, text_views(texts@)),
{
    let mut i: usize = 0;
    proof {
        assert(text_views(into@) =~= text_views(old(into)@) + prefixed(
            prefix@,
            text_views(texts@),
        ).subrange(0, 0));
    }
    while i < texts.len()
        invariant
            i <= texts.len(),
            text_views(into@) == text_views(old(into)@) + prefixed(
                prefix@,
                text_views(texts@),
            ).subrange(0, i as int),
        decreases texts.len() - i,
    {
        let message = String::from_str(prefix).concat(texts[i].as_str());
        proof {
            let all = prefixed(prefix@, text_views(texts@));
            assert(all[i as int] == message@);
            assert(text_views(into@.push(message)) =~= text_views(into@).push(message@));
            assert(all.subrange(0, i + 1) =~= all.subrange(0, i as int).push(all[i as int]));
            assert(text_views(into@).push(message@) =~= text_views(old(into)@) + all.subrange(
                0,
                i + 1,
            ));
        }
        into.push(message);
        i += 1;
    }
    proof {
        let all = prefixed(prefix@, text_views(texts@));
        assert(all.subrange(0, texts.len() as int) =~= all);
    }
}

/// Gathers all messages of a run.
pub fn collect_parsing_errors(units: &Vec<CompilationUnit>, type_errors: &Vec<String>) -> (messages:
    Vec<String>)
    ensures
        text_views(messages@) == all_messages(units@, type_errors@),
{
    let mut messages: Vec<String> = Vec::new();
    let mut i: usize = 0;
    proof {
        assert(units@.subrange(0, 0) =~= Seq::empty());
        assert(text_views(messages@) =~= Seq::empty());
    }
    while i < units.len()
        invariant
            i <= units.len(),
            text_views(messages@) == unit_messages(units@.subrange(0, i as int)),
        decreases units.len() - i,
    {
        push_prefixed("Compilation Unit Parsing Error: ", &units[i].parsing_errors, &mut messages);
        proof {
            assert(units@.subrange(0, i + 1).drop_last() =~= units@.subrange(0, i as int));
        }
        i += 1;
    }
    proof {
        assert(units@.subrange(0, units.len() as int) =~= units@);
    }
    push_prefixed("Type Parsing Error: ", type_errors, &mut messages);
    messages
}

impl<'a> DWARFDebugInformation<'a> {
    /// The report of a run: the units, the types, and all messages.
    pub fn new(
        compilation_units: &'a Vec<CompilationUnit<'a>>,
        type_nodes: &'a Vec<(RustTypeId, RustType)>,
        type_errors: &Vec<String>,
    ) -> (report: Self)
        ensures
            report.compilation_units == compilation_units,
            report.type_nodes == type_nodes,
            text_views(report.parsing_errors@) == all_messages(compilation_units@, type_errors@),
    {
        DWARFDebugInformation {
            compilation_units,
            type_nodes,
            parsing_errors: collect_parsing_errors(compilation_units, type_errors),
        }
    }
}

/// The name that a type is reported under: the offset of its entry, a low
/// line, and the offset of its unit, both in decimal.
pub open spec fn type_key_text(id: RustTypeId) -> Seq<char> {
    decimal_text(id.0 as nat) + "_"@ + decimal_text(id.1 as nat)
}

/// The number that a decimal digit stands for.
pub open spec fn digit_value(c: char) -> Option<usize> {
    if c == '0' {
        Some(0)
    } else if c == '1' {
        Some(1)
    } else if c == '2' {
        Some(2)
    } else if c == '3' {
        Some(3)
    } else if c == '4' {
        Some(4)
    } else if c == '5' {
        Some(5)
    } else if c == '6' {
        Some(6)
    } else if c == '7' {
        Some(7)
    } else if c == '8' {
        Some(8)
    } else if c == '9' {
        Some(9)
    } else {
        None
    }
}

/// The number that a text of decimal digits stands for: none for the empty
/// text, for a text with anything but digits, and for a number that no
/// offset can be.
pub open spec fn number_text_value(text: Seq<char>) -> Option<usize>
    decreases text.len(),
{
    if text.len() == 0 {
        None
    } else {
        match digit_value(text.last()) {
            None => None,
            Some(d) => if text.len() == 1 {
                Some(d)
            } else {
                match number_text_value(text.drop_last()) {
                    Some(n) => if n * 10 + d <= usize::MAX {
                        Some((n * 10 + d) as usize)
                    } else {
                        None
                    },
                    None => None,
                }
            },
        }
    }
}

/// The place of the first low line in a text from `from` on.
pub open spec fn low_line_from(text: Seq<char>, from: int) -> Option<int>
    decreases text.len() - from,
{
    if from < 0 || from >= text.len() {
        None
    } else if text[from] == '_' {
        Some(from)
    } else {
        low_line_from(text, from + 1)
    }
}

/// The type that a name stands for: the number before the first low line is
/// the offset of its entry, the number behind it the offset of its unit.
pub open spec fn parsed_key(text: Seq<char>) -> Option<RustTypeId> {
    match low_line_from(text, 0) {
        Some(i) => match (
            number_text_value(text.subrange(0, i)),
            number_text_value(text.subrange(i + 1, text.len() as int)),
        ) {
            (Some(entry), Some(unit)) => Some(RustTypeId(entry, unit)),
            _ => None,
        },
        None => None,
    }
}

/// A text that stands for no number up to some place stands for none as a
/// whole.
pub proof fn lemma_no_number_extends(text: Seq<char>, k: int)
    requires
        0 < k <= text.len(),
        number_text_value(text.subrange(0, k)) is None,
    ensures
        number_text_value(text) is None,
    decreases text.len() - k,
{
    if k < text.len() {
        assert(text.drop_last().subrange(0, k) =~= text.subrange(0, k));
        lemma_no_number_extends(text.drop_last(), k);
    } else {
        assert(text.subrange(0, k) =~= text);
    }
}

/// A number written in decimal is digits only, and at least one.
pub proof fn lemma_decimal_digits(n: nat)
    ensures
        decimal_text(n).len() > 0,
        forall|i: int|
            0 <= i < decimal_text(n).len() ==> digit_value(#[trigger] decimal_text(n)[i]) is Some,
    decreases n,
{
    if n >= 10 {
        lemma_decimal_digits(n / 10);
        let front = decimal_text(n / 10);
        let all = decimal_text(n);
        assert forall|i: int| 0 <= i < all.len() implies digit_value(#[trigger] all[i]) is Some by {
            if i < front.len() {
                assert(all[i] == front[i]);
            }
        }
    }
}

/// A number written in decimal is read back as itself.
pub proof fn lemma_decimal_read_back(n: nat)
    requires
        n <= usize::MAX,
    ensures
        number_text_value(decimal_text(n)) == Some(n as usize),
    decreases n,
{
    if n >= 10 {
        lemma_decimal_read_back(n / 10);
        lemma_decimal_digits(n / 10);
        let all = decimal_text(n);
        assert(all.drop_last() =~= decimal_text(n / 10));
        assert(all.last() == digit_char((n % 10) as int));
        assert(digit_value(all.last()) == Some((n % 10) as usize));
    } else {
        assert(decimal_text(n).last() == digit_char(n as int));
    }
}

proof fn lemma_low_line_behind(front: Seq<char>, back: Seq<char>, from: int)
    requires
        0 <= from <= front.len(),
        forall|i: int| 0 <= i < front.len() ==> #[trigger] front[i] != '_',
    ensures
        low_line_from(front + seq!['_'] + back, from) == Some(front.len() as int),
    decreases front.len() - from,
{
    let text = front + seq!['_'] + back;
    if from < front.len() {
        assert(text[from] == front[from]);
        lemma_low_line_behind(front, back, from + 1);
    } else {
        assert(text[from] == '_');
    }
}

/// The name that a type is reported under is read back as the type.
pub proof fn lemma_key_read_back(id: RustTypeId)
    ensures
        parsed_key(type_key_text(id)) == Some(id),
{
    let front = decimal_text(id.0 as nat);
    let back = decimal_text(id.1 as nat);
    reveal_strlit("_");
    assert("_"@ =~= seq!['_']);
    let text = front + seq!['_'] + back;
    assert(type_key_text(id) =~= text);
    lemma_decimal_digits(id.0 as nat);
    lemma_decimal_digits(id.1 as nat);
    assert forall|i: int| 0 <= i < front.len() implies #[trigger] front[i] != '_' by {
        assert(digit_value(front[i]) is Some);
    }
    lemma_low_line_behind(front, back, 0);
    assert(text.subrange(0, front.len() as int) =~= front);
    assert(text.subrange(front.len() as int + 1, text.len() as int) =~= back);
    lemma_decimal_read_back(id.0 as nat);
    lemma_decimal_read_back(id.1 as nat);
}

/// Two types are never reported under the same name.
pub proof fn lemma_keys_differ(a: RustTypeId, b: RustTypeId)
    requires
        type_key_text(a) == type_key_text(b),
    ensures
        a == b,
{
    lemma_key_read_back(a);
    lemma_key_read_back(b);
}

fn digit_of(c: char) -> (d: Option<usize>)
    ensures
        d == digit_value(c),
{
    if c == '0' {
        Some(0)
    } else if c == '1' {
        Some(1)
    } else if c == '2' {
        Some(2)
    } else if c == '3' {
        Some(3)
    } else if c == '4' {
        Some(4)
    } else if c == '5' {
        Some(5)
    } else if c == '6' {
        Some(6)
    } else if c == '7' {
        Some(7)
    } else if c == '8' {
        Some(8)
    } else if c == '9' {
        Some(9)
    } else {
        None
    }
}

fn read_number(text: &str, from: usize, to: usize) -> (number: Option<usize>)
    requires
        from <= to <= text@.len(),
    ensures
        number == number_text_value(text@.subrange(from as int, to as int)),
{
    if from == to {
        return None;
    }
    let ghost all = text@.subrange(from as int, to as int);
    let mut value: usize = 0;
    let mut i: usize = from;
    while i < to
        invariant
            from <= i <= to <= text@.len(),
            all == text@.subrange(from as int, to as int),
            i > from ==> number_text_value(all.subrange(0, i - from)) == Some(value),
            i == from ==> value == 0,
        decreases to - i,
    {
        let ghost before = all.subrange(0, i - from);
        let ghost now = all.subrange(0, i + 1 - from);
        proof {
            assert(now.drop_last() =~= before);
            assert(now.last() == text@[i as int]);
        }
        let d = match digit_of(text.get_char(i)) {
            Some(d) => d,
            None => {
                proof {
                    lemma_no_number_extends(all, i + 1 - from);
                }
                return None;
            },
        };
        if value > (usize::MAX - d) / 10 {
            proof {
                assert(value * 10 + d > usize::MAX);
                assert(i > from);
                lemma_no_number_extends(all, i + 1 - from);
            }
            return None;
        }
        value = value * 10 + d;
        i += 1;
    }
    proof {
        assert(all.subrange(0, to - from) =~= all);
    }
    Some(value)
}

fn find_low_line(text: &str) -> (place: Option<usize>)
    ensures
        match place {
            Some(i) => low_line_from(text@, 0) == Some(i as int) && i < text@.len(),
            None => low_line_from(text@, 0) is None,
        },
{
    let n = text.unicode_len();
    let mut i: usize = 0;
    while i < n
        invariant
            i <= n,
            n == text@.len(),
            low_line_from(text@, i as int) == low_line_from(text@, 0),
        decreases n - i,
    {
        if text.get_char(i) == '_' {
            return Some(i);
        }
        i += 1;
    }
    None
}

impl RustTypeId {
    /// Reads the type that a name stands for, as `to_key` writes it.
    pub fn from_key(key: &str) -> (id: Option<RustTypeId>)
        ensures
            id == parsed_key(key@),
    {
        let n = key.unicode_len();
        let place = match find_low_line(key) {
            Some(place) => place,
            None => { return None; },
        };
        let entry = read_number(key, 0, place);
        let unit = read_number(key, place + 1, n);
        match (entry, unit) {
            (Some(entry), Some(unit)) => Some(RustTypeId(entry, unit)),
            _ => None,
        }
    }
}

impl RustTypeId {
    /// Writes the name that the type is reported under.
    pub fn to_key(&self) -> (key: String)
        ensures
            key@ == type_key_text(*self),
    {
        let mut key = decimal(self.0 as u64);
        key.append("_");
        key.append(decimal(self.1 as u64).as_str());
        key
    }
}

} // verus!
