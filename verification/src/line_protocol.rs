//! The line protocol: the text format of a write payload.
//!
//! A payload is a sequence of lines separated by `\n`. An empty line and a
//! line that starts with `#` carry nothing. Every other line has two or
//! three sections separated by single spaces:
//!
//! ```text
//! measurement[,tag=value]* field=value[,field=value]* [timestamp]
//! ```
//!
//! The measurement is not empty. A tag and a field are a key and a value,
//! both not empty, joined by one `=`. The timestamp is an optional `-`
//! followed by decimal digits. There is no escaping and no quoting: a
//! space, a comma and an equals sign always separate.

use crate::bytes::{
    copy_bytes, first_index, free_of, lemma_split_free_of_separator, lemma_split_keeps_free,
    lemma_split_pieces, split, split_bytes, views,
};
use vstd::prelude::*;

verus! {

/// The byte that separates lines.
pub const NEWLINE: u8 = 10;

/// The byte that separates the sections of a line.
pub const SPACE: u8 = 32;

/// The byte that starts a comment line.
pub const HASH: u8 = 35;

/// The byte that separates tags and fields.
pub const COMMA: u8 = 44;

/// The sign of a negative timestamp.
pub const MINUS: u8 = 45;

/// The byte between a key and its value.
pub const EQUALS: u8 = 61;

/// Why a line is malformed.
#[derive(Clone, Copy, Debug, PartialEq, Eq, Structural)]
pub enum ParseFailure {
    /// The line has a single section: no fields.
    MissingFields,
    /// The line has more than three sections.
    TooManySections,
    /// The measurement is empty.
    EmptyMeasurement,
    /// A tag is not `key=value`.
    MalformedTag,
    /// A field is not `key=value`.
    MalformedField,
    /// The third section is not a decimal integer.
    MalformedTimestamp,
}

/// What a well-formed line says: the table it writes to and the columns it
/// names, tag keys before field keys, as written.
pub struct LineModel {
    pub table: Seq<u8>,
    pub columns: Seq<Seq<u8>>,
}

/// A well-formed line in executable form.
#[derive(Debug)]
pub struct ParsedLine {
    pub table: Vec<u8>,
    pub columns: Vec<Vec<u8>>,
}

impl View for ParsedLine {
    type V = LineModel;

    open spec fn view(&self) -> LineModel {
        LineModel { table: self.table@, columns: views(self.columns@) }
    }
}

/// Whether `b` is a decimal digit.
pub open spec fn is_digit(b: u8) -> bool {
    48 <= b <= 57
}

/// Whether `p` is `key=value` with both parts not empty and a single `=`.
pub open spec fn is_pair(p: Seq<u8>) -> bool {
    let kv = split(p, EQUALS);
    kv.len() == 2 && kv[0].len() > 0 && kv[1].len() > 0
}

/// The part of `p` before its first `=`.
pub open spec fn key_of(p: Seq<u8>) -> Seq<u8> {
    p.take(first_index(p, EQUALS))
}

/// Whether every element of `parts` is a pair.
pub open spec fn all_pairs(parts: Seq<Seq<u8>>) -> bool {
    forall|i: int| 0 <= i < parts.len() ==> is_pair(#[trigger] parts[i])
}

/// The keys of `parts`, in order.
pub open spec fn keys(parts: Seq<Seq<u8>>) -> Seq<Seq<u8>> {
    Seq::new(parts.len(), |i: int| key_of(parts[i]))
}

/// `s` without its sign, where it has one.
pub open spec fn unsigned_part(s: Seq<u8>) -> Seq<u8> {
    if s.len() > 0 && s[0] == MINUS {
        s.skip(1)
    } else {
        s
    }
}

/// Whether `s` is an optional `-` followed by at least one digit and
/// nothing else.
pub open spec fn is_timestamp(s: Seq<u8>) -> bool {
    let digits = unsigned_part(s);
    digits.len() > 0 && forall|i: int| 0 <= i < digits.len() ==> is_digit(#[trigger] digits[i])
}

/// Whether `line` carries nothing: it is empty or a comment.
pub open spec fn is_blank(line: Seq<u8>) -> bool {
    line.len() == 0 || line[0] == HASH
}

/// What `line` means: nothing for a blank line, its model where it is
/// well-formed, and else the first defect in the order sections,
/// measurement, tags, fields, timestamp.
pub open spec fn line_meaning(line: Seq<u8>) -> Result<Option<LineModel>, ParseFailure> {
    let sections = split(line, SPACE);
    let series = split(sections[0], COMMA);
    let fields = split(sections[1], COMMA);
    if is_blank(line) {
        Ok(None)
    } else if sections.len() < 2 {
        Err(ParseFailure::MissingFields)
    } else if sections.len() > 3 {
        Err(ParseFailure::TooManySections)
    } else if series[0].len() == 0 {
        Err(ParseFailure::EmptyMeasurement)
    } else if !all_pairs(series.skip(1)) {
        Err(ParseFailure::MalformedTag)
    } else if !all_pairs(fields) {
        Err(ParseFailure::MalformedField)
    } else if sections.len() == 3 && !is_timestamp(sections[2]) {
        Err(ParseFailure::MalformedTimestamp)
    } else {
        Ok(Some(LineModel { table: series[0], columns: keys(series.skip(1)) + keys(fields) }))
    }
}

/// Whether `name` can stand as a column: not empty, and free of the
/// bytes that separate sections, pairs, and keys from values.
pub open spec fn is_column_name(name: Seq<u8>) -> bool {
    name.len() > 0 && free_of(name, SPACE) && free_of(name, COMMA) && free_of(name, EQUALS)
}

/// The key of a pair is a column name, as far as the pair is free of
/// spaces and commas.
pub proof fn lemma_key_is_name(p: Seq<u8>)
    requires
        is_pair(p),
        free_of(p, SPACE),
        free_of(p, COMMA),
    ensures
        is_column_name(key_of(p)),
{
    lemma_split_pieces(p, EQUALS);
    lemma_split_keeps_free(p, EQUALS, SPACE);
    lemma_split_keeps_free(p, EQUALS, COMMA);
    lemma_split_free_of_separator(p, EQUALS);
    let kv = split(p, EQUALS);
    assert(kv[0] == key_of(p));
    assert(free_of(kv[0], SPACE));
    assert(free_of(kv[0], COMMA));
    assert(free_of(kv[0], EQUALS));
}

/// What a well-formed line names is clean: its table is not empty and
/// holds no space and no comma, and each of its columns is a column name.
pub proof fn lemma_line_names(line: Seq<u8>)
    ensures
        line_meaning(line) matches Ok(Some(l)) ==> {
            &&& l.table.len() > 0
            &&& free_of(l.table, SPACE)
            &&& free_of(l.table, COMMA)
            &&& forall|i: int| 0 <= i < l.columns.len() ==> is_column_name(#[trigger] l.columns[i])
        },
{
    match line_meaning(line) {
        Ok(Some(l)) => {
            let sections = split(line, SPACE);
            let series = split(sections[0], COMMA);
            let fields = split(sections[1], COMMA);
            lemma_split_free_of_separator(line, SPACE);
            assert(free_of(sections[0], SPACE));
            assert(free_of(sections[1], SPACE));
            lemma_split_pieces(sections[0], COMMA);
            lemma_split_keeps_free(sections[0], COMMA, SPACE);
            lemma_split_free_of_separator(sections[0], COMMA);
            lemma_split_keeps_free(sections[1], COMMA, SPACE);
            lemma_split_free_of_separator(sections[1], COMMA);
            assert(free_of(series[0], SPACE));
            assert(free_of(series[0], COMMA));
            let tags = series.skip(1);
            assert forall|i: int| 0 <= i < l.columns.len() implies is_column_name(
                #[trigger] l.columns[i],
            ) by {
                if i < tags.len() {
                    assert(l.columns[i] == key_of(tags[i]));
                    assert(tags[i] == series[i + 1]);
                    assert(is_pair(tags[i]));
                    assert(free_of(series[i + 1], SPACE));
                    assert(free_of(series[i + 1], COMMA));
                    lemma_key_is_name(tags[i]);
                } else {
                    let f = i - tags.len();
                    assert(l.columns[i] == key_of(fields[f]));
                    assert(is_pair(fields[f]));
                    assert(free_of(fields[f], SPACE));
                    assert(free_of(fields[f], COMMA));
                    lemma_key_is_name(fields[f]);
                }
            }
        },
        _ => {},
    }
}

/// The key of `p` where `p` is a pair.
pub fn pair_key(p: &[u8]) -> (r: Option<Vec<u8>>)
    ensures
        r is Some == is_pair(p@),
        r matches Some(k) ==> k@ == key_of(p@),
{
    let mut kv = split_bytes(p, EQUALS);
    proof {
        lemma_split_pieces(p@, EQUALS);
    }
    if kv.len() == 2 && kv[0].len() > 0 && kv[1].len() > 0 {
        assert(views(kv@)[0] == kv@[0]@);
        assert(views(kv@)[1] == kv@[1]@);
        let _value = kv.pop();
        let key = kv.pop();
        key
    } else {
        if kv.len() == 2 {
            assert(views(kv@)[0] == kv@[0]@);
            assert(views(kv@)[1] == kv@[1]@);
        }
        None
    }
}

/// Appends to `out` the keys of `parts[from..]`, stopping at the first
/// element that is not a pair.
fn collect_keys(parts: &Vec<Vec<u8>>, from: usize, out: &mut Vec<Vec<u8>>) -> (ok: bool)
    requires
        from <= parts.len(),
    ensures
        ok == all_pairs(views(parts@).skip(from as int)),
        ok ==> views(final(out)@) == views(old(out)@) + keys(views(parts@).skip(from as int)),
{
    let ghost tail = views(parts@).skip(from as int);
    let mut i: usize = from;
    assert(views(out@) + keys(tail.take(0)) =~= views(out@));
    while i < parts.len()
        invariant
            from <= i <= parts.len(),
            tail == views(parts@).skip(from as int),
            all_pairs(tail.take(i - from)),
            views(out@) == views(old(out)@) + keys(tail.take(i - from)),
        decreases parts.len() - i,
    {
        assert(tail[i - from] == parts@[i as int]@);
        match pair_key(parts[i].as_slice()) {
            Some(k) => {
                proof {
                    let done = tail.take(i - from);
                    let next = tail.take(i + 1 - from);
                    assert(next.drop_last() =~= done);
                    assert(keys(next) =~= keys(done).push(k@));
                    assert(views(out@.push(k)) =~= views(out@).push(k@));
                    assert(views(old(out)@) + keys(next) =~= (views(old(out)@) + keys(done)).push(
                        k@,
                    ));
                    assert forall|j: int| 0 <= j < next.len() implies is_pair(
                        #[trigger] next[j],
                    ) by {
                        if j < done.len() {
                            assert(done[j] == next[j]);
                        }
                    }
                }
                out.push(k);
            },
            None => {
                assert(!is_pair(tail[i - from]));
                return false;
            },
        }
        i = i + 1;
    }
    assert(tail.take(i - from) =~= tail);
    true
}

/// Whether `s` is a timestamp.
pub fn is_timestamp_bytes(s: &[u8]) -> (r: bool)
    ensures
        r == is_timestamp(s@),
{
    let start: usize = if s.len() > 0 && s[0] == MINUS {
        1
    } else {
        0
    };
    let ghost digits = unsigned_part(s@);
    assert(digits =~= s@.skip(start as int));
    if s.len() == start {
        return false;
    }
    let mut i: usize = start;
    while i < s.len()
        invariant
            start <= i <= s.len(),
            digits == unsigned_part(s@),
            digits == s@.skip(start as int),
            forall|j: int| 0 <= j < i - start ==> is_digit(#[trigger] digits[j]),
        decreases s.len() - i,
    {
        assert(digits[i - start] == s@[i as int]);
        if !(48 <= s[i] && s[i] <= 57) {
            assert(!is_digit(digits[i - start]));
            return false;
        }
        i = i + 1;
    }
    true
}

/// Reads one line.
pub fn parse_line(line: &[u8]) -> (r: Result<Option<ParsedLine>, ParseFailure>)
    ensures
        match r {
            Ok(Some(l)) => line_meaning(line@) == Ok::<Option<LineModel>, ParseFailure>(Some(l@)),
            Ok(None) => line_meaning(line@) == Ok::<Option<LineModel>, ParseFailure>(None),
            Err(f) => line_meaning(line@) == Err::<Option<LineModel>, ParseFailure>(f),
        },
{
    if line.len() == 0 || line[0] == HASH {
        return Ok(None);
    }
    let sections = split_bytes(line, SPACE);
    if sections.len() < 2 {
        return Err(ParseFailure::MissingFields);
    }
    if sections.len() > 3 {
        return Err(ParseFailure::TooManySections);
    }
    assert(views(sections@)[0] == sections@[0]@);
    assert(views(sections@)[1] == sections@[1]@);
    let mut series = split_bytes(sections[0].as_slice(), COMMA);
    let fields = split_bytes(sections[1].as_slice(), COMMA);
    assert(views(series@)[0] == series@[0]@);
    if series[0].len() == 0 {
        return Err(ParseFailure::EmptyMeasurement);
    }
    let mut columns: Vec<Vec<u8>> = Vec::new();
    assert(views(columns@) =~= Seq::<Seq<u8>>::empty());
    if !collect_keys(&series, 1, &mut columns) {
        return Err(ParseFailure::MalformedTag);
    }
    let ghost tag_keys = views(columns@);
    assert(tag_keys =~= keys(views(series@).skip(1)));
    if !collect_keys(&fields, 0, &mut columns) {
        assert(views(fields@).skip(0) =~= views(fields@));
        return Err(ParseFailure::MalformedField);
    }
    assert(views(fields@).skip(0) =~= views(fields@));
    if sections.len() == 3 {
        assert(views(sections@)[2] == sections@[2]@);
        if !is_timestamp_bytes(sections[2].as_slice()) {
            return Err(ParseFailure::MalformedTimestamp);
        }
    }
    let table = copy_bytes(series[0].as_slice());
    Ok(Some(ParsedLine { table, columns }))
}

} // verus!
