use vstd::prelude::*;

use crate::parse::{
    decimal_text, i32_value, is_digit, is_null_token, lemma_decimal_round_trip, null_token, parse_int,
    remove_na, ParseError,
};

verus! {

/// Number of tab-separated fields a title line declares.
pub const FIELD_COUNT: usize = 9;

/// The pieces of `s` between occurrences of `d`, as `str::split` gives them:
/// always at least one piece, empty pieces kept.
pub open spec fn split_on(s: Seq<char>, d: char) -> Seq<Seq<char>>
    decreases s.len(),
{
    if s.len() == 0 {
        seq![Seq::<char>::empty()]
    } else {
        let rest = split_on(s.drop_first(), d);
        if s[0] == d {
            seq![Seq::<char>::empty()] + rest
        } else {
            rest.update(0, seq![s[0]] + rest[0])
        }
    }
}

/// The pieces joined back together with `d` between neighbours.
pub open spec fn join_on(parts: Seq<Seq<char>>, d: char) -> Seq<char>
    decreases parts.len(),
{
    if parts.len() == 0 {
        Seq::empty()
    } else if parts.len() == 1 {
        parts[0]
    } else {
        parts[0] + seq![d] + join_on(parts.drop_first(), d)
    }
}

pub open spec fn tab() -> char {
    '\t'
}

/// The fields of one line.
pub open spec fn fields_of(line: Seq<char>) -> Seq<Seq<char>> {
    split_on(line, tab())
}

pub proof fn lemma_split_nonempty(s: Seq<char>, d: char)
    ensures
        split_on(s, d).len() >= 1,
    decreases s.len(),
{
    if s.len() > 0 {
        lemma_split_nonempty(s.drop_first(), d);
    }
}

/// Joining the pieces of a split with the same separator gives back the
/// text that was split.
pub proof fn lemma_split_join(s: Seq<char>, d: char)
    ensures
        join_on(split_on(s, d), d) == s,
    decreases s.len(),
{
    if s.len() > 0 {
        let t = s.drop_first();
        lemma_split_join(t, d);
        lemma_split_nonempty(t, d);
        let rest = split_on(t, d);
        if s[0] == d {
            let parts = seq![Seq::<char>::empty()] + rest;
            assert(parts.drop_first() =~= rest);
            assert(s =~= Seq::<char>::empty() + seq![d] + t);
        } else {
            let parts = rest.update(0, seq![s[0]] + rest[0]);
            if rest.len() == 1 {
                assert(s =~= seq![s[0]] + rest[0]);
            } else {
                assert(parts.drop_first() =~= rest.drop_first());
                assert(t == rest[0] + seq![d] + join_on(rest.drop_first(), d));
                assert(s =~= seq![s[0]] + t);
                assert(s =~= (seq![s[0]] + rest[0]) + seq![d] + join_on(rest.drop_first(), d));
            }
        }
    }
}

/// Relies on `str::split` with a `char` pattern: the pieces between the
/// separators, in order, each copied into a `String`.
#[verifier::external_body]
fn split_fields(line: &str) -> (r: Vec<String>)
    ensures
        r@.len() == split_on(line@, tab()).len(),
        forall|i: int| 0 <= i < r@.len() ==> #[trigger] r@[i]@ == split_on(line@, tab())[i],
{
    line.split('\t').map(|f| f.to_string()).collect()
}

/// One row of the title table.
///
/// `runtime_minutes` keeps the field's text: its value is a floating-point
/// number, which the storage layer reads from that text.
#[derive(Debug, Clone, PartialEq)]
pub struct TitleBasics {
    pub tconst: String,
    pub title_type: String,
    pub primary_title: String,
    pub original_title: String,
    pub is_adult: bool,
    pub start_year: Option<i32>,
    pub end_year: Option<i32>,
    pub runtime_minutes: Option<String>,
    pub genres: Option<String>,
}

pub open spec fn opt_text(o: Option<String>) -> Option<Seq<char>> {
    match o {
        Some(s) => Some(s@),
        None => None,
    }
}

/// The text of a nullable field: absent for the null token.
pub open spec fn nullable(tok: Seq<char>) -> Option<Seq<char>> {
    if tok == null_token() {
        None
    } else {
        Some(tok)
    }
}

/// A nullable integer field: `Some(None)` for the null token, `Some(Some(v))`
/// for a decimal `i32`, `None` when the token is not a number.
pub open spec fn int_field(tok: Seq<char>) -> Option<Option<i32>> {
    if tok == null_token() {
        Some(None)
    } else {
        match i32_value(tok) {
            Some(v) => Some(Some(v)),
            None => None,
        }
    }
}

/// Only the literal `1` marks an adult title; the null token and every other
/// value read as `false`.
pub open spec fn adult_flag(tok: Seq<char>) -> bool {
    tok == seq!['1']
}

/// Whether a line holds enough fields and both integer fields are valid.
pub open spec fn line_parses(line: Seq<char>) -> bool {
    let f = fields_of(line);
    f.len() >= FIELD_COUNT && int_field(f[5]) is Some && int_field(f[6]) is Some
}

/// Whether `t` is the record that the fields `f` describe.
pub open spec fn record_of_fields(t: TitleBasics, f: Seq<Seq<char>>) -> bool {
    &&& t.tconst@ == f[0]
    &&& t.title_type@ == f[1]
    &&& t.primary_title@ == f[2]
    &&& t.original_title@ == f[3]
    &&& t.is_adult == adult_flag(f[4])
    &&& Some(t.start_year) == int_field(f[5])
    &&& Some(t.end_year) == int_field(f[6])
    &&& opt_text(t.runtime_minutes) == nullable(f[7])
    &&& opt_text(t.genres) == nullable(f[8])
}

/// The error a line that does not parse gives.
pub open spec fn line_error(line: Seq<char>, e: ParseError) -> bool {
    let f = fields_of(line);
    if f.len() < FIELD_COUNT {
        e == ParseError::MalformedLine
    } else if int_field(f[5]) is None {
        e matches ParseError::InvalidNumber(t) && t@ == f[5]
    } else {
        e matches ParseError::InvalidNumber(t) && t@ == f[6]
    }
}

/// Whether `r` is the outcome of parsing `line`.
pub open spec fn parse_outcome(line: Seq<char>, r: Result<TitleBasics, ParseError>) -> bool {
    match r {
        Ok(t) => line_parses(line) && record_of_fields(t, fields_of(line)),
        Err(e) => !line_parses(line) && line_error(line, e),
    }
}

fn nullable_string(s: &str) -> (r: Option<String>)
    ensures
        opt_text(r) == nullable(s@),
{
    match remove_na(s) {
        Some(t) => Some(t.to_string()),
        None => None,
    }
}

fn is_one(s: &str) -> (r: bool)
    ensures
        r == adult_flag(s@),
{
    if s.unicode_len() == 1 && s.get_char(0) == '1' {
        assert(s@ =~= seq!['1']);
        true
    } else {
        false
    }
}

impl TitleBasics {
    /// Parses one line (without its terminator) into a record. Fields past
    /// the ninth are ignored. The runtime field is kept as text and is not
    /// checked here: it is a floating-point number, which the caller reads
    /// from that text before handing the record on.
    pub fn parse_line(line: &str) -> (r: Result<TitleBasics, ParseError>)
        ensures
            parse_outcome(line@, r),
    {
        let fields = split_fields(line);
        if fields.len() < FIELD_COUNT {
            return Err(ParseError::MalformedLine);
        }
        let start_year = match parse_int(fields[5].as_str()) {
            Ok(v) => v,
            Err(e) => return Err(e),
        };
        let end_year = match parse_int(fields[6].as_str()) {
            Ok(v) => v,
            Err(e) => return Err(e),
        };
        let is_adult = match remove_na(fields[4].as_str()) {
            Some(t) => is_one(t),
            None => false,
        };
        proof {
            assert(!adult_flag(null_token()));
        }
        Ok(TitleBasics {
            tconst: fields[0].clone(),
            title_type: fields[1].clone(),
            primary_title: fields[2].clone(),
            original_title: fields[3].clone(),
            is_adult,
            start_year,
            end_year,
            runtime_minutes: nullable_string(fields[7].as_str()),
            genres: nullable_string(fields[8].as_str()),
        })
    }
}

/// Parsing loses no text: for a line with exactly the declared fields that
/// parses, the fields joined back with tabs give the line again, each text
/// field of the record is its token, each nullable text field holds its token
/// unless that is the null token, and each integer field holds the value its
/// token denotes, so that an integer field written as the decimal text of a
/// value reads back as that value.
pub proof fn lemma_round_trip(line: Seq<char>, t: TitleBasics)
    requires
        fields_of(line).len() == FIELD_COUNT,
        parse_outcome(line, Ok(t)),
    ensures
        join_on(fields_of(line), tab()) == line,
        t.tconst@ == fields_of(line)[0],
        t.title_type@ == fields_of(line)[1],
        t.primary_title@ == fields_of(line)[2],
        t.original_title@ == fields_of(line)[3],
        fields_of(line)[7] != null_token() ==> (t.runtime_minutes matches Some(r)
            && r@ == fields_of(line)[7]),
        fields_of(line)[8] != null_token() ==> (t.genres matches Some(g) && g@
            == fields_of(line)[8]),
        t.start_year matches Some(v) ==> i32_value(fields_of(line)[5]) == Some(v),
        t.end_year matches Some(v) ==> i32_value(fields_of(line)[6]) == Some(v),
        forall|a: i32| fields_of(line)[5] == decimal_text(a as int) ==> t.start_year == Some(a),
        forall|a: i32| fields_of(line)[6] == decimal_text(a as int) ==> t.end_year == Some(a),
{
    lemma_split_join(line, tab());
    assert forall|a: i32| fields_of(line)[5] == decimal_text(a as int) implies t.start_year == Some(
        a,
    ) by {
        lemma_decimal_round_trip(a);
        assert(decimal_text(a as int) != null_token()) by {
            assert(i32_value(null_token()) is None) by {
                assert(!is_digit(null_token()[0]));
            }
        }
    }
    assert forall|a: i32| fields_of(line)[6] == decimal_text(a as int) implies t.end_year == Some(
        a,
    ) by {
        lemma_decimal_round_trip(a);
        assert(decimal_text(a as int) != null_token()) by {
            assert(i32_value(null_token()) is None) by {
                assert(!is_digit(null_token()[0]));
            }
        }
    }
}

} // verus!
