//! The replay log: an append-only event list with a canonical line-per-event
//! text encoding, escape rules, and a 64-bit FNV-1a digest over the text.

use vstd::prelude::*;
use vstd::string::StringExecFns;
use crate::text::{
    dec_u64, dec_nat, spec_parse_u64, digest_of_text, u64_to_dec, parse_u64_chars,
    str_to_chars, chars_to_string, fnv_hex_of_str, seq_views,
};

verus! {

/// One externally observable action of an execution.
#[derive(Debug, Clone)]
pub enum Event {
    Print { value: String },
    ToolCall {
        tool: String,
        input: String,
        output: String,
        source: String,
        timestamp_ms: u64,
        output_hash: String,
        policy_tags: Vec<String>,
    },
    Random { value: u64 },
    Time { millis: u64 },
}

/// The mathematical shape of an event: every text field as its characters.
pub enum EventModel {
    Print { value: Seq<char> },
    ToolCall {
        tool: Seq<char>,
        input: Seq<char>,
        output: Seq<char>,
        source: Seq<char>,
        timestamp_ms: u64,
        output_hash: Seq<char>,
        policy_tags: Seq<Seq<char>>,
    },
    Random { value: u64 },
    Time { millis: u64 },
}

impl View for Event {
    type V = EventModel;

    open spec fn view(&self) -> EventModel {
        match self {
            Event::Print { value } => EventModel::Print { value: value@ },
            Event::ToolCall { tool, input, output, source, timestamp_ms, output_hash, policy_tags } =>
                EventModel::ToolCall {
                    tool: tool@,
                    input: input@,
                    output: output@,
                    source: source@,
                    timestamp_ms: *timestamp_ms,
                    output_hash: output_hash@,
                    policy_tags: seq_views(policy_tags@),
                },
            Event::Random { value } => EventModel::Random { value: *value },
            Event::Time { millis } => EventModel::Time { millis: *millis },
        }
    }
}

/// An append-only record of the observable actions of one execution.
#[derive(Debug, Clone)]
pub struct ReplayLog {
    pub events: Vec<Event>,
}

impl View for ReplayLog {
    type V = Seq<EventModel>;

    open spec fn view(&self) -> Seq<EventModel> {
        self.events@.map_values(|e: Event| e@)
    }
}

impl Default for ReplayLog {
    fn default() -> (r: Self)
        ensures
            r@ == Seq::<EventModel>::empty(),
    {
        let r = ReplayLog { events: Vec::new() };
        proof {
            assert(r@ =~= Seq::<EventModel>::empty());
        }
        r
    }
}

// ---------------------------------------------------------------------------
// Escaping
// ---------------------------------------------------------------------------

/// How one character is written inside a text field of a log line.
pub open spec fn escape_char(c: char) -> Seq<char> {
    if c == '\\' {
        seq!['\\', '\\']
    } else if c == '|' {
        seq!['\\', '|']
    } else if c == '\n' {
        seq!['\\', 'n']
    } else {
        seq![c]
    }
}

pub open spec fn escape_seq(s: Seq<char>) -> Seq<char>
    decreases s.len(),
{
    if s.len() == 0 {
        Seq::empty()
    } else {
        escape_char(s[0]) + escape_seq(s.drop_first())
    }
}

/// The inverse pass: a backslash consumes the next character ('n' becomes a
/// newline, anything else stands for itself); a trailing lone backslash
/// stands for itself.
pub open spec fn unescape_seq(s: Seq<char>) -> Seq<char>
    decreases s.len(),
{
    if s.len() == 0 {
        Seq::empty()
    } else if s[0] == '\\' {
        if s.len() == 1 {
            seq!['\\']
        } else if s[1] == 'n' {
            seq!['\n'] + unescape_seq(s.skip(2))
        } else {
            seq![s[1]] + unescape_seq(s.skip(2))
        }
    } else {
        seq![s[0]] + unescape_seq(s.skip(1))
    }
}

// ---------------------------------------------------------------------------
// Splitting
// ---------------------------------------------------------------------------

/// Split a sequence at every occurrence of `c`; always at least one part.
pub open spec fn split_on(s: Seq<char>, c: char) -> Seq<Seq<char>>
    decreases s.len(),
{
    if s.len() == 0 {
        seq![Seq::<char>::empty()]
    } else {
        let rest = split_on(s.drop_first(), c);
        if s[0] == c {
            seq![Seq::<char>::empty()] + rest
        } else {
            seq![seq![s[0]] + rest[0]] + rest.drop_first()
        }
    }
}

pub proof fn lemma_split_len(s: Seq<char>, c: char)
    ensures
        split_on(s, c).len() >= 1,
    decreases s.len(),
{
    if s.len() > 0 {
        lemma_split_len(s.drop_first(), c);
    }
}

pub proof fn lemma_split_no_sep(s: Seq<char>, c: char)
    requires
        forall|i: int| 0 <= i < s.len() ==> s[i] != c,
    ensures
        split_on(s, c) == seq![s],
    decreases s.len(),
{
    if s.len() == 0 {
        assert(s =~= Seq::<char>::empty());
        assert(split_on(s, c) =~~= seq![s]);
    } else {
        assert(s[0] != c);
        lemma_split_no_sep(s.drop_first(), c);
        lemma_split_len(s.drop_first(), c);
        let rest = split_on(s.drop_first(), c);
        assert(rest == seq![s.drop_first()]);
        assert(rest[0] == s.drop_first());
        assert(seq![s[0]] + s.drop_first() =~= s);
        assert(rest.drop_first() =~= Seq::<Seq<char>>::empty());
        assert(split_on(s, c) =~~= seq![s]);
    }
}

pub proof fn lemma_split_concat(a: Seq<char>, b: Seq<char>, c: char)
    requires
        forall|i: int| 0 <= i < a.len() ==> a[i] != c,
    ensures
        split_on(a + seq![c] + b, c) == seq![a] + split_on(b, c),
    decreases a.len(),
{
    let s = a + seq![c] + b;
    if a.len() == 0 {
        assert(s =~= seq![c] + b);
        assert(s[0] == c);
        assert(s.drop_first() =~= b);
        assert(a =~= Seq::<char>::empty());
        assert(split_on(s, c) =~~= seq![a] + split_on(b, c));
    } else {
        lemma_split_concat(a.drop_first(), b, c);
        assert(a[0] != c);
        assert(s[0] == a[0]);
        assert(s[0] != c);
        assert(s.drop_first() =~= a.drop_first() + seq![c] + b);
        let rest = split_on(a.drop_first() + seq![c] + b, c);
        assert(rest == seq![a.drop_first()] + split_on(b, c));
        lemma_split_len(b, c);
        assert(rest[0] == a.drop_first());
        assert(seq![a[0]] + rest[0] =~= a);
        assert(rest.drop_first() =~= split_on(b, c));
        assert(split_on(s, c) =~~= seq![a] + split_on(b, c));
    }
}

// ---------------------------------------------------------------------------
// Lines
// ---------------------------------------------------------------------------

pub open spec fn join_commas(tags: Seq<Seq<char>>) -> Seq<char>
    decreases tags.len(),
{
    if tags.len() == 0 {
        Seq::empty()
    } else if tags.len() == 1 {
        tags[0]
    } else {
        tags[0] + seq![','] + join_commas(tags.drop_first())
    }
}

/// The canonical text line for one event, without the terminal newline.
pub open spec fn line_of_event(e: EventModel) -> Seq<char> {
    match e {
        EventModel::Print { value } => "PRINT"@ + seq!['|'] + escape_seq(value),
        EventModel::ToolCall { tool, input, output, source, timestamp_ms, output_hash, policy_tags } =>
            "TOOL"@ + seq!['|'] + escape_seq(tool) + seq!['|'] + escape_seq(input) + seq!['|']
                + escape_seq(output) + seq!['|'] + escape_seq(source) + seq!['|']
                + dec_u64(timestamp_ms) + seq!['|'] + escape_seq(output_hash) + seq!['|']
                + escape_seq(join_commas(policy_tags)),
        EventModel::Random { value } => "RANDOM"@ + seq!['|'] + dec_u64(value),
        EventModel::Time { millis } => "TIME"@ + seq!['|'] + dec_u64(millis),
    }
}

/// The full text of a log: one line per event, each with a terminal newline.
pub open spec fn text_of_log(events: Seq<EventModel>) -> Seq<char>
    decreases events.len(),
{
    if events.len() == 0 {
        Seq::empty()
    } else {
        text_of_log(events.drop_last()) + line_of_event(events.last()) + seq!['\n']
    }
}

/// The digest of a log: FNV-1a over the UTF-8 bytes of its text, in hex.
pub open spec fn digest_of_log(events: Seq<EventModel>) -> Seq<char> {
    digest_of_text(text_of_log(events))
}

// ---------------------------------------------------------------------------
// Parsing (the model)
// ---------------------------------------------------------------------------

pub open spec fn strip_cr(s: Seq<char>) -> Seq<char> {
    if s.len() > 0 && s.last() == '\r' {
        s.drop_last()
    } else {
        s
    }
}

pub open spec fn is_space(c: char) -> bool {
    c == ' ' || c == '\t' || c == '\r'
}

pub open spec fn is_blank(s: Seq<char>) -> bool {
    forall|i: int| 0 <= i < s.len() ==> is_space(#[trigger] s[i])
}

/// The nonempty parts of a comma-separated tag list.
pub open spec fn nonempty_tags(parts: Seq<Seq<char>>) -> Seq<Seq<char>>
    decreases parts.len(),
{
    if parts.len() == 0 {
        Seq::empty()
    } else if parts.last().len() > 0 {
        nonempty_tags(parts.drop_last()).push(parts.last())
    } else {
        nonempty_tags(parts.drop_last())
    }
}

pub open spec fn parse_tags(s: Seq<char>) -> Seq<Seq<char>> {
    nonempty_tags(split_on(s, ','))
}

/// What parsing one nonblank line yields: an event, or an error message.
pub open spec fn parse_line_spec(line: Seq<char>) -> Result<EventModel, Seq<char>> {
    let parts = split_on(line, '|');
    if parts[0] == "PRINT"@ && parts.len() == 2 {
        Ok(EventModel::Print { value: unescape_seq(parts[1]) })
    } else if parts[0] == "TOOL"@ && parts.len() == 8 {
        match spec_parse_u64(parts[5]) {
            None => Err("invalid timestamp"@),
            Some(ts) => Ok(EventModel::ToolCall {
                tool: unescape_seq(parts[1]),
                input: unescape_seq(parts[2]),
                output: unescape_seq(parts[3]),
                source: unescape_seq(parts[4]),
                timestamp_ms: ts,
                output_hash: unescape_seq(parts[6]),
                policy_tags: parse_tags(unescape_seq(parts[7])),
            }),
        }
    } else if parts[0] == "RANDOM"@ && parts.len() == 2 {
        match spec_parse_u64(parts[1]) {
            None => Err("invalid random value"@),
            Some(v) => Ok(EventModel::Random { value: v }),
        }
    } else if parts[0] == "TIME"@ && parts.len() == 2 {
        match spec_parse_u64(parts[1]) {
            None => Err("invalid millis"@),
            Some(v) => Ok(EventModel::Time { millis: v }),
        }
    } else {
        Err("invalid replay event"@)
    }
}

/// Parse a sequence of raw lines, skipping blank ones; `idx` is the 1-based
/// number of the first line, used in error messages.
pub open spec fn parse_lines_spec(lines: Seq<Seq<char>>, idx: nat) -> Result<
    Seq<EventModel>,
    Seq<char>,
>
    decreases lines.len(),
{
    if lines.len() == 0 {
        Ok(Seq::empty())
    } else {
        let line = strip_cr(lines[0]);
        if is_blank(line) {
            parse_lines_spec(lines.drop_first(), idx + 1)
        } else {
            match parse_line_spec(line) {
                Err(e) => Err("line "@ + dec_nat(idx) + ": "@ + e),
                Ok(ev) => match parse_lines_spec(lines.drop_first(), idx + 1) {
                    Err(e) => Err(e),
                    Ok(evs) => Ok(seq![ev] + evs),
                },
            }
        }
    }
}

/// What parsing a whole replay text yields.
pub open spec fn parse_text_spec(s: Seq<char>) -> Result<Seq<EventModel>, Seq<char>> {
    parse_lines_spec(split_on(s, '\n'), 1)
}

// ---------------------------------------------------------------------------
// The roundtrip law
// ---------------------------------------------------------------------------

/// A text field survives the trip through a log line when it holds no pipe
/// (the field separator is split before unescaping) and no carriage return
/// (a trailing one would be stripped with the line ending).
pub open spec fn field_ok(s: Seq<char>) -> bool {
    forall|i: int| 0 <= i < s.len() ==> #[trigger] s[i] != '|' && s[i] != '\r'
}

/// A policy tag must additionally be nonempty and comma-free, since tags are
/// stored comma-joined.
pub open spec fn tag_ok(s: Seq<char>) -> bool {
    field_ok(s) && s.len() > 0 && forall|i: int| 0 <= i < s.len() ==> #[trigger] s[i] != ','
}

/// The events whose text encoding parses back exactly.
pub open spec fn wf_event(e: EventModel) -> bool {
    match e {
        EventModel::Print { value } => field_ok(value),
        EventModel::ToolCall { tool, input, output, source, output_hash, policy_tags, .. } =>
            field_ok(tool) && field_ok(input) && field_ok(output) && field_ok(source) && field_ok(
                output_hash,
            ) && forall|k: int| 0 <= k < policy_tags.len() ==> tag_ok(#[trigger] policy_tags[k]),
        EventModel::Random { .. } => true,
        EventModel::Time { .. } => true,
    }
}

pub open spec fn wf_log(events: Seq<EventModel>) -> bool {
    forall|i: int| 0 <= i < events.len() ==> wf_event(#[trigger] events[i])
}

/// No pipe character anywhere in the sequence.
pub open spec fn no_pipe(s: Seq<char>) -> bool {
    forall|i: int| 0 <= i < s.len() ==> #[trigger] s[i] != '|'
}

/// No newline and no carriage return anywhere in the sequence.
pub open spec fn no_nl_cr(s: Seq<char>) -> bool {
    forall|i: int| 0 <= i < s.len() ==> #[trigger] s[i] != '\n' && s[i] != '\r'
}

proof fn lemma_concat_clean(a: Seq<char>, b: Seq<char>)
    ensures
        no_pipe(a) && no_pipe(b) ==> no_pipe(a + b),
        no_nl_cr(a) && no_nl_cr(b) ==> no_nl_cr(a + b),
{
    if no_pipe(a) && no_pipe(b) {
        assert forall|i: int| 0 <= i < (a + b).len() implies #[trigger] (a + b)[i] != '|' by {
            if i < a.len() {
                assert((a + b)[i] == a[i]);
            } else {
                assert((a + b)[i] == b[i - a.len()]);
            }
        }
    }
    if no_nl_cr(a) && no_nl_cr(b) {
        assert forall|i: int| 0 <= i < (a + b).len() implies #[trigger] (a + b)[i] != '\n' && (a
            + b)[i] != '\r' by {
            if i < a.len() {
                assert((a + b)[i] == a[i]);
            } else {
                assert((a + b)[i] == b[i - a.len()]);
            }
        }
    }
}

/// Escaping a well-formed field yields a part with no pipe, newline or return.
proof fn lemma_escape_clean(s: Seq<char>)
    requires
        field_ok(s),
    ensures
        no_pipe(escape_seq(s)),
        no_nl_cr(escape_seq(s)),
    decreases s.len(),
{
    if s.len() > 0 {
        assert(s[0] != '|' && s[0] != '\r');
        assert(field_ok(s.drop_first())) by {
            assert(forall|i: int|
                0 <= i < s.drop_first().len() ==> #[trigger] s.drop_first()[i] == s[i + 1]);
        }
        lemma_escape_clean(s.drop_first());
        assert(no_pipe(escape_char(s[0])));
        assert(no_nl_cr(escape_char(s[0])));
        lemma_concat_clean(escape_char(s[0]), escape_seq(s.drop_first()));
    }
}

/// A decimal rendering holds only digits, hence none of the meta characters.
proof fn lemma_digits_clean(n: nat)
    ensures
        no_pipe(dec_nat(n)),
        no_nl_cr(dec_nat(n)),
{
    crate::text::lemma_dec_nat(n);
    assert forall|i: int| 0 <= i < dec_nat(n).len() implies #[trigger] dec_nat(n)[i] != '|'
        && dec_nat(n)[i] != '\n' && dec_nat(n)[i] != '\r' by {
        assert(crate::text::is_dec_digit(dec_nat(n)[i]));
        if dec_nat(n)[i] == '|' {
            assert(dec_nat(n)[i] as u32 == 124);
        }
        if dec_nat(n)[i] == '\n' {
            assert(dec_nat(n)[i] as u32 == 10);
        }
        if dec_nat(n)[i] == '\r' {
            assert(dec_nat(n)[i] as u32 == 13);
        }
    }
}

/// Unescaping inverts escaping, for every field.
pub proof fn lemma_unescape_escape(s: Seq<char>)
    ensures
        unescape_seq(escape_seq(s)) == s,
    decreases s.len(),
{
    if s.len() == 0 {
        assert(unescape_seq(escape_seq(s)) =~= s);
    } else {
        lemma_unescape_escape(s.drop_first());
        let c = s[0];
        let rest = escape_seq(s.drop_first());
        let e = escape_seq(s);
        assert(e == escape_char(c) + rest);
        if c == '\\' || c == '|' || c == '\n' {
            let d: char = if c == '\\' {
                '\\'
            } else if c == '|' {
                '|'
            } else {
                'n'
            };
            assert(escape_char(c) == seq!['\\', d]);
            assert(e.len() >= 2);
            assert(e[0] == '\\');
            assert(e[1] == d);
            assert(e.skip(2) =~= rest);
            if c == '\n' {
                assert(unescape_seq(e) == seq!['\n'] + unescape_seq(rest));
            } else {
                assert(d != 'n');
                assert(unescape_seq(e) == seq![d] + unescape_seq(rest));
            }
            assert(unescape_seq(e) =~= s);
        } else {
            assert(escape_char(c) == seq![c]);
            assert(e[0] == c);
            assert(e.skip(1) =~= rest);
            assert(unescape_seq(e) == seq![c] + unescape_seq(rest));
            assert(unescape_seq(e) =~= s);
        }
    }
}

proof fn lemma_tags_prepend(t: Seq<char>, rest: Seq<Seq<char>>)
    ensures
        nonempty_tags(seq![t] + rest) == if t.len() > 0 {
            seq![t] + nonempty_tags(rest)
        } else {
            nonempty_tags(rest)
        },
    decreases rest.len(),
{
    let s = seq![t] + rest;
    assert(nonempty_tags(Seq::<Seq<char>>::empty()) == Seq::<Seq<char>>::empty());
    if rest.len() == 0 {
        assert(s.drop_last() =~= Seq::<Seq<char>>::empty());
        assert(s.last() == t);
        assert(rest =~= Seq::<Seq<char>>::empty());
        if t.len() > 0 {
            assert(nonempty_tags(s) == nonempty_tags(Seq::<Seq<char>>::empty()).push(t));
            assert(nonempty_tags(s) =~= seq![t] + nonempty_tags(rest));
        } else {
            assert(nonempty_tags(s) == nonempty_tags(Seq::<Seq<char>>::empty()));
        }
    } else {
        lemma_tags_prepend(t, rest.drop_last());
        assert(s.drop_last() =~= seq![t] + rest.drop_last());
        assert(s.last() == rest.last());
        if rest.last().len() > 0 {
            assert(nonempty_tags(s) == nonempty_tags(seq![t] + rest.drop_last()).push(rest.last()));
            if t.len() > 0 {
                assert((seq![t] + nonempty_tags(rest.drop_last())).push(rest.last()) =~= seq![t]
                    + nonempty_tags(rest.drop_last()).push(rest.last()));
            }
        }
    }
}

pub proof fn lemma_concat_field_ok(a: Seq<char>, b: Seq<char>)
    requires
        field_ok(a),
        field_ok(b),
    ensures
        field_ok(a + b),
{
    assert forall|i: int| 0 <= i < (a + b).len() implies #[trigger] (a + b)[i] != '|' && (a + b)[i]
        != '\r' by {
        if i < a.len() {
            assert((a + b)[i] == a[i]);
        } else {
            assert((a + b)[i] == b[i - a.len()]);
        }
    }
}

/// The comma join of well-formed tags is itself a well-formed field, and
/// splitting it back recovers the tags.
proof fn lemma_tags_roundtrip(tags: Seq<Seq<char>>)
    requires
        forall|k: int| 0 <= k < tags.len() ==> tag_ok(#[trigger] tags[k]),
    ensures
        parse_tags(join_commas(tags)) == tags,
        field_ok(join_commas(tags)),
    decreases tags.len(),
{
    assert(nonempty_tags(Seq::<Seq<char>>::empty()) == Seq::<Seq<char>>::empty());
    if tags.len() == 0 {
        assert(join_commas(tags) == Seq::<char>::empty());
        assert(split_on(Seq::<char>::empty(), ',') == seq![Seq::<char>::empty()]);
        assert(seq![Seq::<char>::empty()].drop_last() =~= Seq::<Seq<char>>::empty());
        assert(nonempty_tags(seq![Seq::<char>::empty()]) == nonempty_tags(
            Seq::<Seq<char>>::empty(),
        ));
        assert(parse_tags(join_commas(tags)) =~~= tags);
    } else if tags.len() == 1 {
        let t = tags[0];
        assert(tag_ok(t));
        assert(join_commas(tags) == t);
        assert(forall|i: int| 0 <= i < t.len() ==> #[trigger] t[i] != ',');
        lemma_split_no_sep(t, ',');
        assert(split_on(t, ',') == seq![t]);
        assert(seq![t].drop_last() =~= Seq::<Seq<char>>::empty());
        assert(seq![t].last() == t);
        assert(nonempty_tags(seq![t]) == nonempty_tags(Seq::<Seq<char>>::empty()).push(t));
        assert(parse_tags(join_commas(tags)) =~~= tags);
        assert(field_ok(join_commas(tags)));
    } else {
        let t = tags[0];
        assert(tag_ok(t));
        assert(forall|k: int|
            0 <= k < tags.drop_first().len() ==> #[trigger] tags.drop_first()[k] == tags[k + 1]);
        lemma_tags_roundtrip(tags.drop_first());
        let rest = join_commas(tags.drop_first());
        assert(join_commas(tags) == t + seq![','] + rest);
        assert(forall|i: int| 0 <= i < t.len() ==> #[trigger] t[i] != ',');
        lemma_split_concat(t, rest, ',');
        assert(split_on(join_commas(tags), ',') == seq![t] + split_on(rest, ','));
        lemma_tags_prepend(t, split_on(rest, ','));
        assert(parse_tags(join_commas(tags)) == seq![t] + tags.drop_first());
        assert(parse_tags(join_commas(tags)) =~~= tags);
        assert(field_ok(seq![','])) by {
            assert(seq![','][0] == ',');
        }
        lemma_concat_field_ok(t, seq![',']);
        lemma_concat_field_ok(t + seq![','], rest);
        assert(t + seq![','] + rest == join_commas(tags));
    }
}

/// A well-formed event's line parses back to the event; the line holds no
/// newline or carriage return and is not blank.
#[verifier::rlimit(100)]
#[verifier::spinoff_prover]
proof fn lemma_line_roundtrip(e: EventModel)
    requires
        wf_event(e),
    ensures
        parse_line_spec(line_of_event(e)) == Ok::<EventModel, Seq<char>>(e),
        no_nl_cr(line_of_event(e)),
        !is_blank(line_of_event(e)),
        line_of_event(e).len() > 0,
    decreases e,
{
    let line = line_of_event(e);
    let bar = seq!['|'];
    assert(no_pipe("PRINT"@) && no_nl_cr("PRINT"@) && "PRINT"@.len() == 5 && "PRINT"@[0] == 'P')
        by {
        reveal_strlit("PRINT");
    }
    assert(no_pipe("TOOL"@) && no_nl_cr("TOOL"@) && "TOOL"@.len() == 4 && "TOOL"@[0] == 'T') by {
        reveal_strlit("TOOL");
    }
    assert(no_pipe("RANDOM"@) && no_nl_cr("RANDOM"@) && "RANDOM"@.len() == 6 && "RANDOM"@[0]
        == 'R') by {
        reveal_strlit("RANDOM");
    }
    assert(no_pipe("TIME"@) && no_nl_cr("TIME"@) && "TIME"@.len() == 4 && "TIME"@[0] == 'T') by {
        reveal_strlit("TIME");
    }
    assert("PRINT"@ != "TOOL"@ && "PRINT"@ != "RANDOM"@ && "PRINT"@ != "TIME"@);
    match e {
        EventModel::Print { value } => {
            let ev = escape_seq(value);
            lemma_escape_clean(value);
            assert(line =~= "PRINT"@ + bar + ev);
            lemma_split_concat("PRINT"@, ev, '|');
            lemma_split_no_sep(ev, '|');
            let parts = split_on(line, '|');
            assert(parts =~~= seq!["PRINT"@, ev]);
            lemma_unescape_escape(value);
            assert(parse_line_spec(line) == Ok::<EventModel, Seq<char>>(e));
            lemma_concat_clean("PRINT"@, bar);
            lemma_concat_clean("PRINT"@ + bar, ev);
            assert(no_nl_cr(bar)) by {
                assert(bar[0] == '|');
            }
            assert(line[0] == 'P');
            assert(!is_space('P'));
        },
        EventModel::ToolCall { tool, input, output, source, timestamp_ms, output_hash, policy_tags } => {
            let e1 = escape_seq(tool);
            let e2 = escape_seq(input);
            let e3 = escape_seq(output);
            let e4 = escape_seq(source);
            let e5 = dec_u64(timestamp_ms);
            let e6 = escape_seq(output_hash);
            let joined = join_commas(policy_tags);
            let e7 = escape_seq(joined);
            lemma_escape_clean(tool);
            lemma_escape_clean(input);
            lemma_escape_clean(output);
            lemma_escape_clean(source);
            lemma_digits_clean(timestamp_ms as nat);
            lemma_escape_clean(output_hash);
            lemma_tags_roundtrip(policy_tags);
            assert(field_ok(joined));
            lemma_escape_clean(joined);
            let b7 = e7;
            let b6 = e6 + bar + b7;
            let b5 = e5 + bar + b6;
            let b4 = e4 + bar + b5;
            let b3 = e3 + bar + b4;
            let b2 = e2 + bar + b3;
            let b1 = e1 + bar + b2;
            assert(line =~= "TOOL"@ + bar + b1);
            lemma_split_concat("TOOL"@, b1, '|');
            lemma_split_concat(e1, b2, '|');
            lemma_split_concat(e2, b3, '|');
            lemma_split_concat(e3, b4, '|');
            lemma_split_concat(e4, b5, '|');
            lemma_split_concat(e5, b6, '|');
            lemma_split_concat(e6, b7, '|');
            lemma_split_no_sep(e7, '|');
            let parts = split_on(line, '|');
            assert(parts =~~= seq!["TOOL"@, e1, e2, e3, e4, e5, e6, e7]);
            lemma_unescape_escape(tool);
            lemma_unescape_escape(input);
            lemma_unescape_escape(output);
            lemma_unescape_escape(source);
            crate::text::lemma_parse_dec_u64(timestamp_ms);
            lemma_unescape_escape(output_hash);
            lemma_unescape_escape(joined);
            assert(parts[5] == e5);
            assert(spec_parse_u64(parts[5]) == Some(timestamp_ms));
            assert(parse_line_spec(line) == Ok::<EventModel, Seq<char>>(e));
            assert(no_nl_cr(bar)) by {
                assert(bar[0] == '|');
            }
            lemma_concat_clean(e6, bar);
            lemma_concat_clean(e6 + bar, b7);
            lemma_concat_clean(e5, bar);
            lemma_concat_clean(e5 + bar, b6);
            lemma_concat_clean(e4, bar);
            lemma_concat_clean(e4 + bar, b5);
            lemma_concat_clean(e3, bar);
            lemma_concat_clean(e3 + bar, b4);
            lemma_concat_clean(e2, bar);
            lemma_concat_clean(e2 + bar, b3);
            lemma_concat_clean(e1, bar);
            lemma_concat_clean(e1 + bar, b2);
            lemma_concat_clean("TOOL"@, bar);
            lemma_concat_clean("TOOL"@ + bar, b1);
            assert(line[0] == 'T');
            assert(!is_space('T'));
        },
        EventModel::Random { value } => {
            let ev = dec_u64(value);
            lemma_digits_clean(value as nat);
            assert(line =~= "RANDOM"@ + bar + ev);
            lemma_split_concat("RANDOM"@, ev, '|');
            lemma_split_no_sep(ev, '|');
            let parts = split_on(line, '|');
            assert(parts =~~= seq!["RANDOM"@, ev]);
            crate::text::lemma_parse_dec_u64(value);
            assert(parse_line_spec(line) == Ok::<EventModel, Seq<char>>(e));
            lemma_concat_clean("RANDOM"@, bar);
            lemma_concat_clean("RANDOM"@ + bar, ev);
            assert(no_nl_cr(bar)) by {
                assert(bar[0] == '|');
            }
            assert(line[0] == 'R');
            assert(!is_space('R'));
        },
        EventModel::Time { millis } => {
            let ev = dec_u64(millis);
            lemma_digits_clean(millis as nat);
            assert(line =~= "TIME"@ + bar + ev);
            lemma_split_concat("TIME"@, ev, '|');
            lemma_split_no_sep(ev, '|');
            let parts = split_on(line, '|');
            assert(parts =~~= seq!["TIME"@, ev]);
            crate::text::lemma_parse_dec_u64(millis);
            assert(parse_line_spec(line) == Ok::<EventModel, Seq<char>>(e));
            lemma_concat_clean("TIME"@, bar);
            lemma_concat_clean("TIME"@ + bar, ev);
            assert(no_nl_cr(bar)) by {
                assert(bar[0] == '|');
            }
            assert(line[0] == 'T');
            assert(!is_space('T'));
        },
    }
}

/// Front decomposition of the log text.
proof fn lemma_text_front(events: Seq<EventModel>)
    requires
        events.len() > 0,
    ensures
        text_of_log(events) == line_of_event(events[0]) + seq!['\n'] + text_of_log(
            events.drop_first(),
        ),
    decreases events.len(),
{
    if events.len() == 1 {
        assert(events.drop_last() =~= Seq::<EventModel>::empty());
        assert(events.drop_first() =~= Seq::<EventModel>::empty());
        assert(events.last() == events[0]);
        assert(text_of_log(events) =~= line_of_event(events[0]) + seq!['\n'] + text_of_log(
            events.drop_first(),
        ));
    } else {
        lemma_text_front(events.drop_last());
        assert(events.drop_last()[0] == events[0]);
        assert(events.drop_last().drop_first() =~= events.drop_first().drop_last());
        assert(events.drop_first().last() == events.last());
        assert(text_of_log(events) == text_of_log(events.drop_last()) + line_of_event(events.last())
            + seq!['\n']);
        assert(text_of_log(events.drop_first()) == text_of_log(events.drop_first().drop_last())
            + line_of_event(events.drop_first().last()) + seq!['\n']);
        assert(text_of_log(events) =~= line_of_event(events[0]) + seq!['\n'] + text_of_log(
            events.drop_first(),
        ));
    }
}

proof fn lemma_log_parses(events: Seq<EventModel>, idx: nat)
    requires
        wf_log(events),
    ensures
        parse_lines_spec(split_on(text_of_log(events), '\n'), idx) == Ok::<
            Seq<EventModel>,
            Seq<char>,
        >(events),
    decreases events.len(),
{
    if events.len() == 0 {
        assert(text_of_log(events) == Seq::<char>::empty());
        let lines = split_on(Seq::<char>::empty(), '\n');
        assert(lines == seq![Seq::<char>::empty()]);
        assert(lines[0] == Seq::<char>::empty());
        assert(strip_cr(lines[0]) == Seq::<char>::empty());
        assert(is_blank(Seq::<char>::empty()));
        assert(lines.drop_first() =~= Seq::<Seq<char>>::empty());
        assert(parse_lines_spec(Seq::<Seq<char>>::empty(), idx + 1) == Ok::<
            Seq<EventModel>,
            Seq<char>,
        >(Seq::<EventModel>::empty()));
        assert(parse_lines_spec(lines, idx) == Ok::<Seq<EventModel>, Seq<char>>(events)) by {
            assert(Seq::<EventModel>::empty() =~= events);
        }
    } else {
        assert(wf_event(events[0]));
        lemma_line_roundtrip(events[0]);
        let line0 = line_of_event(events[0]);
        let rest_text = text_of_log(events.drop_first());
        lemma_text_front(events);
        assert(wf_log(events.drop_first())) by {
            assert(forall|i: int|
                0 <= i < events.drop_first().len() ==> #[trigger] events.drop_first()[i]
                    == events[i + 1]);
        }
        lemma_log_parses(events.drop_first(), idx + 1);
        assert(forall|i: int| 0 <= i < line0.len() ==> #[trigger] line0[i] != '\n');
        lemma_split_concat(line0, rest_text, '\n');
        assert(text_of_log(events) == line0 + seq!['\n'] + rest_text);
        let lines = split_on(text_of_log(events), '\n');
        assert(lines == seq![line0] + split_on(rest_text, '\n'));
        assert(lines.len() >= 1) by {
            lemma_split_len(rest_text, '\n');
        }
        assert(lines[0] == line0);
        assert(strip_cr(lines[0]) == line0) by {
            if line0.len() > 0 && line0.last() == '\r' {
                assert(line0[line0.len() - 1] != '\r');
            }
        }
        assert(!is_blank(line0));
        assert(lines.drop_first() =~= split_on(rest_text, '\n'));
        assert(parse_lines_spec(lines, idx) == Ok::<Seq<EventModel>, Seq<char>>(
            seq![events[0]] + events.drop_first(),
        ));
        assert(seq![events[0]] + events.drop_first() =~= events);
    }
}

/// The roundtrip law: the text of any well-formed log parses back to exactly
/// the same event sequence, so the digest of the reparsed log equals the
/// digest of the original.
pub proof fn lemma_replay_roundtrip(events: Seq<EventModel>)
    requires
        wf_log(events),
    ensures
        parse_text_spec(text_of_log(events)) == Ok::<Seq<EventModel>, Seq<char>>(events),
        parse_text_spec(text_of_log(events)) matches Ok(reparsed) && digest_of_log(reparsed)
            == digest_of_log(events),
{
    lemma_log_parses(events, 1);
}

// ---------------------------------------------------------------------------
// Executable helpers
// ---------------------------------------------------------------------------

pub proof fn lemma_escape_snoc(s: Seq<char>, c: char)
    ensures
        escape_seq(s.push(c)) == escape_seq(s) + escape_char(c),
    decreases s.len(),
{
    if s.len() == 0 {
        assert(s.push(c)[0] == c);
        assert(s.push(c).drop_first() =~= Seq::<char>::empty());
        assert(escape_seq(Seq::<char>::empty()) == Seq::<char>::empty());
        assert(escape_seq(s.push(c)) == escape_char(c) + Seq::<char>::empty());
        assert(escape_seq(s.push(c)) =~= escape_seq(s) + escape_char(c));
    } else {
        lemma_escape_snoc(s.drop_first(), c);
        assert(s.push(c)[0] == s[0]);
        assert(s.push(c).drop_first() =~= s.drop_first().push(c));
        assert(escape_seq(s.push(c)) == escape_char(s[0]) + escape_seq(s.drop_first().push(c)));
        assert(escape_seq(s.drop_first().push(c)) == escape_seq(s.drop_first()) + escape_char(c));
        assert(escape_seq(s.push(c)) =~= escape_seq(s) + escape_char(c));
    }
}

/// Escape a text field for embedding in a log line.
pub fn escape(s: &str) -> (r: String)
    ensures
        r@ == escape_seq(s@),
{
    let cs = str_to_chars(s);
    let mut out: Vec<char> = Vec::new();
    let mut i: usize = 0;
    while i < cs.len()
        invariant
            cs@ == s@,
            0 <= i <= cs.len(),
            out@ == escape_seq(s@.take(i as int)),
        decreases cs.len() - i,
    {
        let ghost out0 = out@;
        let c = cs[i];
        if c == '\\' {
            out.push('\\');
            out.push('\\');
        } else if c == '|' {
            out.push('\\');
            out.push('|');
        } else if c == '\n' {
            out.push('\\');
            out.push('n');
        } else {
            out.push(c);
        }
        proof {
            lemma_escape_snoc(s@.take(i as int), s@[i as int]);
            assert(s@.take(i + 1) =~= s@.take(i as int).push(s@[i as int]));
            assert(out@ =~= out0 + escape_char(s@[i as int]));
        }
        i = i + 1;
    }
    assert(s@.take(s@.len() as int) =~= s@);
    chars_to_string(&out)
}

/// Reverse the escaping of a text field.
pub fn unescape_chars(v: &Vec<char>) -> (r: Vec<char>)
    ensures
        r@ == unescape_seq(v@),
{
    let mut out: Vec<char> = Vec::new();
    let mut i: usize = 0;
    proof {
        assert(v@.skip(0) =~= v@);
        assert(out@ + unescape_seq(v@.skip(0)) =~= unescape_seq(v@));
    }
    while i < v.len()
        invariant
            0 <= i <= v.len(),
            unescape_seq(v@) == out@ + unescape_seq(v@.skip(i as int)),
        decreases v.len() - i,
    {
        let ghost out0 = out@;
        let ghost rem = v@.skip(i as int);
        assert(rem[0] == v@[i as int]);
        let c = v[i];
        if c == '\\' {
            if i + 1 < v.len() {
                assert(rem[1] == v@[i + 1]);
                let d = v[i + 1];
                if d == 'n' {
                    out.push('\n');
                    proof {
                        assert(out@ =~= out0 + seq!['\n']);
                    }
                } else {
                    out.push(d);
                    proof {
                        assert(out@ =~= out0 + seq![d]);
                    }
                }
                proof {
                    assert(rem.skip(2) =~= v@.skip(i + 2));
                    assert(out@ + unescape_seq(v@.skip(i + 2)) =~= out0 + unescape_seq(rem));
                }
                i = i + 2;
            } else {
                out.push('\\');
                proof {
                    assert(rem.len() == 1);
                    assert(out@ =~= out0 + seq!['\\']);
                    assert(v@.skip(i + 1) =~= Seq::<char>::empty());
                    assert(out@ + unescape_seq(v@.skip(i + 1)) =~= out0 + unescape_seq(rem));
                }
                i = i + 1;
            }
        } else {
            out.push(c);
            proof {
                assert(out@ =~= out0 + seq![c]);
                assert(rem.skip(1) =~= v@.skip(i + 1));
                assert(out@ + unescape_seq(v@.skip(i + 1)) =~= out0 + unescape_seq(rem));
            }
            i = i + 1;
        }
    }
    assert(v@.skip(v@.len() as int) =~= Seq::<char>::empty());
    assert(out@ =~= out@ + unescape_seq(v@.skip(v@.len() as int)));
    out
}

pub open spec fn views_chars(v: Seq<Vec<char>>) -> Seq<Seq<char>> {
    v.map_values(|p: Vec<char>| p@)
}

/// Split a character vector at every occurrence of `sep`.
pub fn split_chars(v: &Vec<char>, sep: char) -> (r: Vec<Vec<char>>)
    ensures
        views_chars(r@) == split_on(v@, sep),
        r@.len() >= 1,
{
    let mut r: Vec<Vec<char>> = Vec::new();
    let mut cur: Vec<char> = Vec::new();
    let mut i: usize = 0;
    proof {
        assert(cur@ =~= v@.subrange(0, 0));
        assert(v@.skip(0) =~= v@);
        assert(views_chars(r@) =~= Seq::<Seq<char>>::empty());
        assert(views_chars(r@) + split_on(v@.skip(0), sep) =~= split_on(v@, sep));
    }
    while i < v.len()
        invariant
            0 <= i <= v.len(),
            cur.len() <= i,
            cur@ == v@.subrange(i - cur.len(), i as int),
            forall|j: int| 0 <= j < cur@.len() ==> cur@[j] != sep,
            split_on(v@, sep) == views_chars(r@) + split_on(v@.skip(i - cur.len()), sep),
        decreases v.len() - i,
    {
        let ghost r0 = r@;
        let ghost cur0 = cur@;
        let ghost start = i - cur.len();
        let c = v[i];
        if c == sep {
            proof {
                assert(v@.skip(start) =~= cur0 + seq![sep] + v@.skip(i + 1));
                lemma_split_concat(cur0, v@.skip(i + 1), sep);
            }
            r.push(cur);
            cur = Vec::new();
            proof {
                assert(views_chars(r@) =~= views_chars(r0).push(cur0));
                assert(views_chars(r0) + (seq![cur0] + split_on(v@.skip(i + 1), sep)) =~~= views_chars(
                    r@,
                ) + split_on(v@.skip(i + 1), sep));
                assert(cur@ =~= v@.subrange(i + 1, i + 1));
            }
        } else {
            cur.push(c);
            proof {
                assert(cur@ =~= v@.subrange(i + 1 - cur@.len(), i + 1));
            }
        }
        i = i + 1;
    }
    let ghost start = i - cur.len();
    proof {
        assert(cur@ =~= v@.skip(start));
        lemma_split_no_sep(v@.skip(start), sep);
    }
    let ghost r0 = r@;
    let ghost cur0 = cur@;
    r.push(cur);
    proof {
        assert(views_chars(r@) =~= views_chars(r0).push(cur0));
        assert(views_chars(r0) + seq![cur0] =~~= views_chars(r@));
    }
    r
}

/// Compare a character vector with a string.
pub(crate) fn chars_eq_lit(a: &Vec<char>, lit: &str) -> (r: bool)
    ensures
        r == (a@ == lit@),
{
    let lv = str_to_chars(lit);
    if a.len() != lv.len() {
        return false;
    }
    let mut i: usize = 0;
    while i < a.len()
        invariant
            0 <= i <= a.len(),
            a.len() == lv.len(),
            lv@ == lit@,
            forall|j: int| 0 <= j < i ==> a@[j] == lv@[j],
        decreases a.len() - i,
    {
        if a[i] != lv[i] {
            return false;
        }
        i = i + 1;
    }
    proof {
        assert(a@ =~= lit@);
    }
    true
}

pub proof fn lemma_join_snoc(s: Seq<Seq<char>>, t: Seq<char>)
    ensures
        join_commas(s.push(t)) == if s.len() == 0 {
            t
        } else {
            join_commas(s) + seq![','] + t
        },
    decreases s.len(),
{
    if s.len() == 0 {
        assert(s.push(t)[0] == t);
        assert(join_commas(s.push(t)) == t);
    } else if s.len() == 1 {
        assert(s.push(t)[0] == s[0]);
        assert(s.push(t).drop_first() =~= seq![t]);
        assert(join_commas(seq![t]) == t);
        assert(join_commas(s.push(t)) == s[0] + seq![','] + t);
        assert(join_commas(s) == s[0]);
    } else {
        lemma_join_snoc(s.drop_first(), t);
        assert(s.push(t)[0] == s[0]);
        assert(s.push(t).drop_first() =~= s.drop_first().push(t));
        assert(join_commas(s.push(t)) == s[0] + seq![','] + (join_commas(s.drop_first()) + seq![
            ','
        ] + t));
        assert(join_commas(s.push(t)) =~= join_commas(s) + seq![','] + t);
    }
}

/// Join policy tags with commas.
fn join_tags(tags: &Vec<String>) -> (r: String)
    ensures
        r@ == join_commas(seq_views(tags@)),
{
    let mut out = String::new();
    if tags.len() == 0 {
        return out;
    }
    out.append(tags[0].as_str());
    assert(out@ =~= seq_views(tags@).take(1)[0]);
    assert(out@ == join_commas(seq_views(tags@).take(1)));
    let mut i: usize = 1;
    while i < tags.len()
        invariant
            1 <= i <= tags.len(),
            out@ == join_commas(seq_views(tags@).take(i as int)),
        decreases tags.len() - i,
    {
        let ghost out0 = out@;
        out.append(",");
        out.append(tags[i].as_str());
        proof {
            reveal_strlit(",");
            assert(","@ =~= seq![',']);
            lemma_join_snoc(seq_views(tags@).take(i as int), seq_views(tags@)[i as int]);
            assert(seq_views(tags@).take(i + 1) =~= seq_views(tags@).take(i as int).push(
                seq_views(tags@)[i as int],
            ));
            assert(out@ =~= out0 + seq![','] + seq_views(tags@)[i as int]);
        }
        i = i + 1;
    }
    assert(seq_views(tags@).take(tags@.len() as int) =~= seq_views(tags@));
    out
}

/// The canonical text line for one event.
pub fn event_to_line(e: &Event) -> (r: String)
    ensures
        r@ == line_of_event(e@),
{
    proof {
        reveal_strlit("|");
        assert("|"@ =~= seq!['|']);
    }
    match e {
        Event::Print { value } => {
            let mut s = String::from_str("PRINT");
            s.append("|");
            let ev = escape(value.as_str());
            s.append(ev.as_str());
            assert(s@ =~= "PRINT"@ + seq!['|'] + escape_seq(value@));
            s
        },
        Event::ToolCall { tool, input, output, source, timestamp_ms, output_hash, policy_tags } => {
            let mut s = String::from_str("TOOL");
            s.append("|");
            let p1 = escape(tool.as_str());
            s.append(p1.as_str());
            s.append("|");
            let p2 = escape(input.as_str());
            s.append(p2.as_str());
            s.append("|");
            let p3 = escape(output.as_str());
            s.append(p3.as_str());
            s.append("|");
            let p4 = escape(source.as_str());
            s.append(p4.as_str());
            s.append("|");
            let p5 = u64_to_dec(*timestamp_ms);
            s.append(p5.as_str());
            s.append("|");
            let p6 = escape(output_hash.as_str());
            s.append(p6.as_str());
            s.append("|");
            let joined = join_tags(policy_tags);
            let p7 = escape(joined.as_str());
            s.append(p7.as_str());
            assert(s@ =~= line_of_event(e@));
            s
        },
        Event::Random { value } => {
            let mut s = String::from_str("RANDOM");
            s.append("|");
            let p = u64_to_dec(*value);
            s.append(p.as_str());
            assert(s@ =~= "RANDOM"@ + seq!['|'] + dec_u64(*value));
            s
        },
        Event::Time { millis } => {
            let mut s = String::from_str("TIME");
            s.append("|");
            let p = u64_to_dec(*millis);
            s.append(p.as_str());
            assert(s@ =~= "TIME"@ + seq!['|'] + dec_u64(*millis));
            s
        },
    }
}

fn strip_cr_exec(v: &Vec<char>) -> (r: Vec<char>)
    ensures
        r@ == strip_cr(v@),
{
    let mut out: Vec<char> = Vec::new();
    let n = if v.len() > 0 && v[v.len() - 1] == '\r' {
        v.len() - 1
    } else {
        v.len()
    };
    let mut i: usize = 0;
    while i < n
        invariant
            0 <= i <= n <= v.len(),
            out@ == v@.take(i as int),
        decreases n - i,
    {
        out.push(v[i]);
        assert(out@ =~= v@.take(i + 1));
        i = i + 1;
    }
    proof {
        if v@.len() > 0 && v@.last() == '\r' {
            assert(out@ =~= v@.drop_last());
        } else {
            assert(out@ =~= v@);
        }
    }
    out
}

fn is_blank_exec(v: &Vec<char>) -> (r: bool)
    ensures
        r == is_blank(v@),
{
    let mut i: usize = 0;
    while i < v.len()
        invariant
            0 <= i <= v.len(),
            forall|j: int| 0 <= j < i ==> is_space(#[trigger] v@[j]),
        decreases v.len() - i,
    {
        let c = v[i];
        if !(c == ' ' || c == '\t' || c == '\r') {
            return false;
        }
        i = i + 1;
    }
    true
}

/// Parse one nonblank line of replay text.
fn parse_line(line: &Vec<char>) -> (r: Result<Event, String>)
    ensures
        match r {
            Ok(e) => parse_line_spec(line@) == Ok::<EventModel, Seq<char>>(e@),
            Err(m) => parse_line_spec(line@) == Err::<EventModel, Seq<char>>(m@),
        },
{
    let parts = split_chars(line, '|');
    proof {
        lemma_split_len(line@, '|');
    }
    let ghost sparts = split_on(line@, '|');
    assert(sparts[0] == parts@[0]@);
    if parts.len() == 2 && chars_eq_lit(&parts[0], "PRINT") {
        let uv = unescape_chars(&parts[1]);
        let value = chars_to_string(&uv);
        let e = Event::Print { value };
        assert(sparts[1] == parts@[1]@);
        assert(parse_line_spec(line@) == Ok::<EventModel, Seq<char>>(e@));
        Ok(e)
    } else if parts.len() == 8 && chars_eq_lit(&parts[0], "TOOL") {
        assert(sparts[5] == parts@[5]@);
        match parse_u64_chars(&parts[5]) {
            None => Err(String::from_str("invalid timestamp")),
            Some(ts) => {
                assert(sparts[1] == parts@[1]@);
                assert(sparts[2] == parts@[2]@);
                assert(sparts[3] == parts@[3]@);
                assert(sparts[4] == parts@[4]@);
                assert(sparts[6] == parts@[6]@);
                assert(sparts[7] == parts@[7]@);
                let t1 = unescape_chars(&parts[1]);
                let tool = chars_to_string(&t1);
                let t2 = unescape_chars(&parts[2]);
                let input = chars_to_string(&t2);
                let t3 = unescape_chars(&parts[3]);
                let output = chars_to_string(&t3);
                let t4 = unescape_chars(&parts[4]);
                let source = chars_to_string(&t4);
                let t6 = unescape_chars(&parts[6]);
                let output_hash = chars_to_string(&t6);
                let tags_chars = unescape_chars(&parts[7]);
                let tag_parts = split_chars(&tags_chars, ',');
                let mut policy_tags: Vec<String> = Vec::new();
                let mut k: usize = 0;
                while k < tag_parts.len()
                    invariant
                        0 <= k <= tag_parts.len(),
                        seq_views(policy_tags@) == nonempty_tags(
                            views_chars(tag_parts@).take(k as int),
                        ),
                    decreases tag_parts.len() - k,
                {
                    let ghost pv = seq_views(policy_tags@);
                    proof {
                        assert(views_chars(tag_parts@).take(k + 1).drop_last() =~= views_chars(
                            tag_parts@,
                        ).take(k as int));
                        assert(views_chars(tag_parts@).take(k + 1).last() == tag_parts@[k as int]@);
                    }
                    if tag_parts[k].len() > 0 {
                        let t = chars_to_string(&tag_parts[k]);
                        policy_tags.push(t);
                        assert(seq_views(policy_tags@) =~= pv.push(tag_parts@[k as int]@));
                    }
                    k = k + 1;
                }
                proof {
                    assert(views_chars(tag_parts@).take(tag_parts@.len() as int) =~= views_chars(
                        tag_parts@,
                    ));
                }
                let e = Event::ToolCall {
                    tool,
                    input,
                    output,
                    source,
                    timestamp_ms: ts,
                    output_hash,
                    policy_tags,
                };
                assert(parse_line_spec(line@) == Ok::<EventModel, Seq<char>>(e@));
                Ok(e)
            },
        }
    } else if parts.len() == 2 && chars_eq_lit(&parts[0], "RANDOM") {
        assert(sparts[1] == parts@[1]@);
        match parse_u64_chars(&parts[1]) {
            None => Err(String::from_str("invalid random value")),
            Some(v) => Ok(Event::Random { value: v }),
        }
    } else if parts.len() == 2 && chars_eq_lit(&parts[0], "TIME") {
        assert(sparts[1] == parts@[1]@);
        match parse_u64_chars(&parts[1]) {
            None => Err(String::from_str("invalid millis")),
            Some(v) => Ok(Event::Time { millis: v }),
        }
    } else {
        Err(String::from_str("invalid replay event"))
    }
}

impl ReplayLog {
    /// Append one event to the log.
    pub fn push(&mut self, event: Event)
        ensures
            final(self)@ == old(self)@.push(event@),
    {
        let ghost ev = event@;
        self.events.push(event);
        proof {
            assert(self@ =~= old(self)@.push(ev));
        }
    }

    /// The canonical text of the log: one line per event, newline terminated.
    pub fn to_text(&self) -> (r: String)
        ensures
            r@ == text_of_log(self@),
    {
        let mut out = String::new();
        let mut i: usize = 0;
        while i < self.events.len()
            invariant
                0 <= i <= self.events.len(),
                out@ == text_of_log(self@.take(i as int)),
            decreases self.events.len() - i,
        {
            let ghost out0 = out@;
            let line = event_to_line(&self.events[i]);
            out.append(line.as_str());
            out.append("\n");
            proof {
                reveal_strlit("\n");
                assert("\n"@ =~= seq!['\n']);
                assert(self@.take(i + 1).drop_last() =~= self@.take(i as int));
                assert(self@.take(i + 1).last() == self@[i as int]);
                assert(out@ =~= out0 + line_of_event(self@[i as int]) + seq!['\n']);
            }
            i = i + 1;
        }
        assert(self@.take(self.events@.len() as int) =~= self@);
        out
    }

    /// The FNV-1a digest of the log text, as 16 lowercase hex digits.
    pub fn digest_hex(&self) -> (r: String)
        ensures
            r@ == digest_of_log(self@),
    {
        let serialized = self.to_text();
        fnv_hex_of_str(serialized.as_str())
    }

    /// Parse a replay text back into a log; blank lines are skipped, and the
    /// first malformed line is reported with its 1-based number.
    pub fn from_text(s: &str) -> (r: Result<Self, String>)
        ensures
            match r {
                Ok(log) => parse_text_spec(s@) == Ok::<Seq<EventModel>, Seq<char>>(log@),
                Err(m) => parse_text_spec(s@) == Err::<Seq<EventModel>, Seq<char>>(m@),
            },
    {
        let cs = str_to_chars(s);
        let lines = split_chars(&cs, '\n');
        let mut events: Vec<Event> = Vec::new();
        let mut i: usize = 0;
        proof {
            assert(views_chars(lines@).skip(0) =~= views_chars(lines@));
            let p = parse_lines_spec(split_on(s@, '\n'), 1);
            match p {
                Ok(evs) => {
                    assert(events@.map_values(|e: Event| e@) =~= Seq::<EventModel>::empty());
                    assert(events@.map_values(|e: Event| e@) + evs =~= evs);
                },
                Err(_) => {},
            }
        }
        while i < lines.len()
            invariant
                0 <= i <= lines.len(),
                cs@ == s@,
                views_chars(lines@) == split_on(s@, '\n'),
                parse_lines_spec(split_on(s@, '\n'), 1) == (match parse_lines_spec(
                    views_chars(lines@).skip(i as int),
                    (i + 1) as nat,
                ) {
                    Ok(evs) => Ok::<Seq<EventModel>, Seq<char>>(
                        events@.map_values(|e: Event| e@) + evs,
                    ),
                    Err(m) => Err::<Seq<EventModel>, Seq<char>>(m),
                }),
            decreases lines.len() - i,
        {
            let ghost rem = views_chars(lines@).skip(i as int);
            proof {
                assert(rem[0] == lines@[i as int]@);
                assert(rem.drop_first() =~= views_chars(lines@).skip(i + 1));
            }
            let lv = strip_cr_exec(&lines[i]);
            let blank = is_blank_exec(&lv);
            if !blank {
                match parse_line(&lv) {
                    Ok(e) => {
                        let ghost evs0 = events@.map_values(|e: Event| e@);
                        let ghost ev = e@;
                        events.push(e);
                        proof {
                            assert(events@.map_values(|e: Event| e@) =~= evs0.push(ev));
                            assert(forall|rest: Seq<EventModel>|
                                evs0 + (seq![ev] + rest) =~= #[trigger] (evs0.push(ev) + rest));
                        }
                    },
                    Err(m) => {
                        let mut msg = String::from_str("line ");
                        let num = u64_to_dec((i as u64) + 1);
                        msg.append(num.as_str());
                        msg.append(": ");
                        msg.append(m.as_str());
                        proof {
                            assert((((i as u64) + 1) as nat) == (i + 1) as nat);
                            assert(msg@ =~= "line "@ + dec_nat((i + 1) as nat) + ": "@ + m@);
                        }
                        return Err(msg);
                    },
                }
            }
            i = i + 1;
        }
        proof {
            assert(views_chars(lines@).skip(lines@.len() as int) =~= Seq::<Seq<char>>::empty());
            assert(events@.map_values(|e: Event| e@) + Seq::<EventModel>::empty() =~= events@
                .map_values(|e: Event| e@));
        }
        let log = ReplayLog { events };
        Ok(log)
    }
}

} // verus!
