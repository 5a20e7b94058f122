use vstd::prelude::*;
use vstd::string::StringExecFns;

use crate::number::{
    append_decimal, hex_u16_of, i16_of, lemma_digits_plain, lemma_hex_numeral, lemma_i16_numeral,
    lemma_numeral, lemma_u8_numeral, numeral, parse_hex_u16, parse_i16, parse_u8, signed_numeral,
    u8_of,
};
use crate::state::ControllerState;

verus! {

/// The ways an exchange with the device can fail.
#[derive(Clone, Copy, Debug, PartialEq, Eq, Structural)]
pub enum InsenError {
    /// The transport could not be opened, written or read (a timeout included).
    ConnectionError,
    /// An operation needed an open transport and none is held.
    NotConnected,
    /// A telemetry frame was malformed.
    ParseError,
}

/// The prompt that starts every response: `">>> "`.
pub open spec fn prompt() -> Seq<char> {
    seq!['>', '>', '>', ' ']
}

/// The tag of a telemetry frame: `INPUT`.
pub open spec fn input_tag() -> Seq<char> {
    seq!['I', 'N', 'P', 'U', 'T']
}

/// The pieces of `s` between occurrences of `d`; always at least one piece.
pub open spec fn split(s: Seq<char>, d: char) -> Seq<Seq<char>>
    decreases s.len(),
{
    if s.len() == 0 {
        seq![Seq::empty()]
    } else {
        let before = split(s.drop_last(), d);
        if s.last() == d {
            before.push(Seq::empty())
        } else {
            before.update(before.len() - 1, before.last().push(s.last()))
        }
    }
}

pub proof fn lemma_split_not_empty(s: Seq<char>, d: char)
    ensures
        split(s, d).len() >= 1,
    decreases s.len(),
{
    if s.len() > 0 {
        lemma_split_not_empty(s.drop_last(), d);
    }
}

/// Two comma-separated signed values, exactly two.
pub open spec fn i16_pair_of(f: Seq<char>) -> Option<(i16, i16)> {
    let p = split(f, ',');
    if p.len() == 2 {
        match (i16_of(p[0]), i16_of(p[1])) {
            (Some(a), Some(b)) => Some((a, b)),
            _ => None,
        }
    } else {
        None
    }
}

/// Two comma-separated unsigned values, exactly two.
pub open spec fn u8_pair_of(f: Seq<char>) -> Option<(u8, u8)> {
    let p = split(f, ',');
    if p.len() == 2 {
        match (u8_of(p[0]), u8_of(p[1])) {
            (Some(a), Some(b)) => Some((a, b)),
            _ => None,
        }
    } else {
        None
    }
}

/// Whether `s` starts with the response prompt.
pub open spec fn has_prompt(s: Seq<char>) -> bool {
    s.len() >= 4 && s.take(4) == prompt()
}

/// The `|`-separated fields of a response after its prompt.
pub open spec fn fields_of(s: Seq<char>) -> Seq<Seq<char>> {
    split(s.skip(4), '|')
}

/// The controller state that a telemetry response reports, read at `timestamp`;
/// `None` when the response is not a well-formed telemetry frame.
pub open spec fn telemetry_of(s: Seq<char>, timestamp: u64) -> Option<ControllerState> {
    if !has_prompt(s) {
        None
    } else {
        let f = fields_of(s);
        if f.len() < 8 || f[0] != input_tag() {
            None
        } else {
            match (
                u8_of(f[1]),
                i16_pair_of(f[2]),
                i16_pair_of(f[3]),
                u8_pair_of(f[4]),
                hex_u16_of(f[5]),
                u8_of(f[6]),
                u8_of(f[7]),
            ) {
                (
                    Some(id),
                    Some((lx, ly)),
                    Some((rx, ry)),
                    Some((lt, rt)),
                    Some(buttons),
                    Some(dpad),
                    Some(battery),
                ) => Some(
                    ControllerState {
                        id,
                        left_stick_x: lx,
                        left_stick_y: ly,
                        right_stick_x: rx,
                        right_stick_y: ry,
                        left_trigger: lt,
                        right_trigger: rt,
                        buttons,
                        dpad,
                        battery,
                        timestamp,
                    },
                ),
                _ => None,
            }
        }
    }
}

pub open spec fn views_of(v: Seq<Vec<char>>) -> Seq<Seq<char>> {
    v.map_values(|f: Vec<char>| f@)
}

/// Copies the characters of `s` into a vector.
pub fn chars_of(s: &str) -> (r: Vec<char>)
    ensures
        r@ == s@,
{
    let mut out: Vec<char> = Vec::new();
    let mut cs = s.chars();
    proof {
        broadcast use vstd::string::axiom_spec_iter;
    }
    for c in it: cs
        invariant
            out@ == it.history(),
            it.seq() == s@,
    {
        out.push(c);
    }
    out
}

/// Splits `s` from `start` on at every `d`.
pub fn split_from(s: &Vec<char>, start: usize, d: char) -> (r: Vec<Vec<char>>)
    requires
        start <= s.len(),
    ensures
        views_of(r@) == split(s@.skip(start as int), d),
{
    let mut fields: Vec<Vec<char>> = Vec::new();
    let mut cur: Vec<char> = Vec::new();
    let mut i: usize = start;
    assert(s@.subrange(start as int, start as int) =~= Seq::<char>::empty());
    assert(views_of(fields@).push(cur@) =~= seq![Seq::<char>::empty()]);
    while i < s.len()
        invariant
            start <= i <= s.len(),
            views_of(fields@).push(cur@) == split(s@.subrange(start as int, i as int), d),
        decreases s.len() - i,
    {
        let ghost prev = s@.subrange(start as int, i as int);
        let ghost next = s@.subrange(start as int, i + 1);
        assert(next.drop_last() =~= prev);
        let c = s[i];
        proof {
            lemma_split_not_empty(prev, d);
        }
        if c == d {
            let ghost old_fields = fields@;
            fields.push(cur);
            cur = Vec::new();
            assert(views_of(fields@) =~= views_of(old_fields).push(
                split(prev, d)[split(prev, d).len() - 1],
            ));
            assert(views_of(fields@).push(cur@) =~= split(next, d));
        } else {
            cur.push(c);
            assert(views_of(fields@).push(cur@) =~= split(next, d));
        }
        i = i + 1;
    }
    assert(s@.subrange(start as int, i as int) =~= s@.skip(start as int));
    fields.push(cur);
    assert(views_of(fields@) =~= split(s@.skip(start as int), d));
    fields
}

fn parse_i16_pair(f: &Vec<char>) -> (r: Option<(i16, i16)>)
    ensures
        r == i16_pair_of(f@),
{
    assert(f@.skip(0) =~= f@);
    let p = split_from(f, 0, ',');
    if p.len() == 2 {
        assert(views_of(p@)[0] == p@[0]@ && views_of(p@)[1] == p@[1]@);
        match (parse_i16(&p[0]), parse_i16(&p[1])) {
            (Some(a), Some(b)) => Some((a, b)),
            _ => None,
        }
    } else {
        None
    }
}

fn parse_u8_pair(f: &Vec<char>) -> (r: Option<(u8, u8)>)
    ensures
        r == u8_pair_of(f@),
{
    assert(f@.skip(0) =~= f@);
    let p = split_from(f, 0, ',');
    if p.len() == 2 {
        assert(views_of(p@)[0] == p@[0]@ && views_of(p@)[1] == p@[1]@);
        match (parse_u8(&p[0]), parse_u8(&p[1])) {
            (Some(a), Some(b)) => Some((a, b)),
            _ => None,
        }
    } else {
        None
    }
}

fn starts_with_prompt(s: &Vec<char>) -> (r: bool)
    ensures
        r == has_prompt(s@),
{
    if s.len() >= 4 && s[0] == '>' && s[1] == '>' && s[2] == '>' && s[3] == ' ' {
        assert(s@.take(4) =~= prompt());
        true
    } else {
        if s.len() >= 4 {
            assert(s@.take(4)[0] == s@[0] && s@.take(4)[1] == s@[1]);
            assert(s@.take(4)[2] == s@[2] && s@.take(4)[3] == s@[3]);
        }
        false
    }
}

fn is_input_tag(f: &Vec<char>) -> (r: bool)
    ensures
        r == (f@ == input_tag()),
{
    if f.len() == 5 && f[0] == 'I' && f[1] == 'N' && f[2] == 'P' && f[3] == 'U' && f[4] == 'T' {
        assert(f@ =~= input_tag());
        true
    } else {
        if f.len() == 5 {
            assert(input_tag()[0] == 'I' && input_tag()[1] == 'N' && input_tag()[2] == 'P');
            assert(input_tag()[3] == 'U' && input_tag()[4] == 'T');
        }
        false
    }
}

/// Decodes a telemetry response into the state it reports, stamped with
/// `timestamp`. Every malformed frame gives `ParseError`.
pub fn decode_telemetry(response: &str, timestamp: u64) -> (r: Result<ControllerState, InsenError>)
    ensures
        match telemetry_of(response@, timestamp) {
            Some(st) => r == Ok::<ControllerState, InsenError>(st),
            None => r == Err::<ControllerState, InsenError>(InsenError::ParseError),
        },
{
    let s = chars_of(response);
    if !starts_with_prompt(&s) {
        return Err(InsenError::ParseError);
    }
    let parts = split_from(&s, 4, '|');
    let ghost f = fields_of(response@);
    assert(views_of(parts@) == f);
    if parts.len() < 8 || !is_input_tag(&parts[0]) {
        return Err(InsenError::ParseError);
    }
    assert forall|k: int| 0 <= k < 8 implies #[trigger] parts@[k]@ == f[k] by {
        assert(views_of(parts@)[k] == parts@[k]@);
    }
    let id = parse_u8(&parts[1]);
    let left = parse_i16_pair(&parts[2]);
    let right = parse_i16_pair(&parts[3]);
    let triggers = parse_u8_pair(&parts[4]);
    let buttons = parse_hex_u16(&parts[5]);
    let dpad = parse_u8(&parts[6]);
    let battery = parse_u8(&parts[7]);
    match (id, left, right, triggers, buttons, dpad, battery) {
        (
            Some(id),
            Some((lx, ly)),
            Some((rx, ry)),
            Some((lt, rt)),
            Some(buttons),
            Some(dpad),
            Some(battery),
        ) => Ok(
            ControllerState {
                id,
                left_stick_x: lx,
                left_stick_y: ly,
                right_stick_x: rx,
                right_stick_y: ry,
                left_trigger: lt,
                right_trigger: rt,
                buttons,
                dpad,
                battery,
                timestamp,
            },
        ),
        _ => Err(InsenError::ParseError),
    }
}

/// A command line as sent: the command followed by CR LF.
pub open spec fn frame(command: Seq<char>) -> Seq<char> {
    command + seq!['\r', '\n']
}

/// The request for the state of controller `id`: `GET <id>`.
pub open spec fn get_request(id: u8) -> Seq<char> {
    seq!['G', 'E', 'T', ' '] + numeral(id as nat, false)
}

/// Appends the line terminator to `command`.
pub fn frame_command(command: &str) -> (r: String)
    ensures
        r@ == frame(command@),
{
    let mut line = command.to_owned();
    proof {
        reveal_strlit("\r\n");
    }
    line.append("\r\n");
    assert("\r\n"@ =~= seq!['\r', '\n']);
    line
}

/// Builds the request for the state of controller `id`.
pub fn get_request_command(id: u8) -> (r: String)
    ensures
        r@ == get_request(id),
{
    proof {
        reveal_strlit("GET ");
    }
    let mut line = "GET ".to_owned();
    assert("GET "@ =~= seq!['G', 'E', 'T', ' ']);
    append_decimal(&mut line, id);
    line
}

/// The text of `bytes`, with each invalid UTF-8 sequence replaced by U+FFFD.
pub uninterp spec fn lossy_text_of(bytes: Seq<u8>) -> Seq<char>;

/// `s` without its leading and trailing white space.
pub uninterp spec fn trimmed_of(s: Seq<char>) -> Seq<char>;

/// Relies on `String::from_utf8_lossy`: the text depends on the bytes alone.
#[verifier::external_body]
fn text_of_bytes(bytes: &[u8]) -> (r: String)
    ensures
        r@ == lossy_text_of(bytes@),
{
    String::from_utf8_lossy(bytes).into_owned()
}

/// Relies on `str::trim`: the result depends on the text alone, and an empty
/// text stays empty.
#[verifier::external_body]
fn trim_text(s: &str) -> (r: String)
    ensures
        r@ == trimmed_of(s@),
        s@.len() == 0 ==> r@.len() == 0,
{
    s.trim().to_string()
}

/// The reply text carried by the raw bytes read from the transport: decoded
/// leniently and trimmed of surrounding white space.
pub fn decode_reply(bytes: &[u8]) -> (r: String)
    ensures
        r@ == trimmed_of(lossy_text_of(bytes@)),
{
    let text = text_of_bytes(bytes);
    trim_text(text.as_str())
}

/// A response that does not start with the prompt never decodes.
pub proof fn lemma_missing_prompt_rejected(s: Seq<char>, timestamp: u64)
    requires
        !has_prompt(s),
    ensures
        telemetry_of(s, timestamp) is None,
{
}

/// A response with fewer than eight `|`-separated fields never decodes.
pub proof fn lemma_short_frame_rejected(s: Seq<char>, timestamp: u64)
    requires
        fields_of(s).len() < 8,
    ensures
        telemetry_of(s, timestamp) is None,
{
}

/// Whether `d` does not occur in `s`.
pub open spec fn free_of(s: Seq<char>, d: char) -> bool {
    forall|i: int| 0 <= i < s.len() ==> s[i] != d
}

/// The pieces joined with `d` between each two.
pub open spec fn join(pieces: Seq<Seq<char>>, d: char) -> Seq<char>
    decreases pieces.len(),
{
    if pieces.len() == 0 {
        Seq::empty()
    } else if pieces.len() == 1 {
        pieces[0]
    } else {
        join(pieces.drop_last(), d).push(d) + pieces.last()
    }
}

/// Two values written as `a,b`.
pub open spec fn comma_pair(a: Seq<char>, b: Seq<char>) -> Seq<char> {
    a.push(',') + b
}

/// The fields of the telemetry frame that reports `st`.
pub open spec fn telemetry_fields(st: ControllerState) -> Seq<Seq<char>> {
    seq![
        input_tag(),
        numeral(st.id as nat, false),
        comma_pair(signed_numeral(st.left_stick_x as int), signed_numeral(st.left_stick_y as int)),
        comma_pair(signed_numeral(st.right_stick_x as int), signed_numeral(st.right_stick_y as int)),
        comma_pair(numeral(st.left_trigger as nat, false), numeral(st.right_trigger as nat, false)),
        seq!['0', 'x'] + numeral(st.buttons as nat, true),
        numeral(st.dpad as nat, false),
        numeral(st.battery as nat, false),
    ]
}

/// The telemetry response that reports `st`.
pub open spec fn encode_telemetry(st: ControllerState) -> Seq<char> {
    prompt() + join(telemetry_fields(st), '|')
}

proof fn lemma_split_extend(a: Seq<char>, b: Seq<char>, d: char)
    requires
        free_of(b, d),
    ensures
        split(a + b, d) == split(a, d).update(
            split(a, d).len() - 1,
            split(a, d).last() + b,
        ),
    decreases b.len(),
{
    lemma_split_not_empty(a, d);
    if b.len() == 0 {
        assert(a + b =~= a);
        assert(split(a, d).last() + b =~= split(a, d).last());
        assert(split(a, d).update(split(a, d).len() - 1, split(a, d).last() + b) =~= split(a, d));
    } else {
        let c = b.drop_last();
        lemma_split_extend(a, c, d);
        assert((a + b).drop_last() =~= a + c);
        assert((a + b).last() == b.last());
        assert(b.last() != d);
        let pa = split(a, d);
        let before = split(a + c, d);
        assert(before.len() == pa.len());
        assert(before.last() == pa.last() + c);
        assert(before.last().push(b.last()) =~= pa.last() + b);
        assert(split(a + b, d) == before.update(before.len() - 1, before.last().push(b.last())));
        assert(split(a + b, d) =~= split(a, d).update(
            split(a, d).len() - 1,
            split(a, d).last() + b,
        ));
    }
}

proof fn lemma_split_piece(b: Seq<char>, d: char)
    requires
        free_of(b, d),
    ensures
        split(b, d) == seq![b],
{
    lemma_split_extend(Seq::empty(), b, d);
    assert(Seq::<char>::empty() + b =~= b);
    assert(split(Seq::<char>::empty(), d) =~= seq![Seq::<char>::empty()]);
    assert(split(b, d) =~= seq![b]);
}

proof fn lemma_split_after_separator(a: Seq<char>, b: Seq<char>, d: char)
    requires
        free_of(b, d),
    ensures
        split(a.push(d) + b, d) == split(a, d).push(b),
{
    lemma_split_extend(a.push(d), b, d);
    assert(a.push(d).drop_last() =~= a);
    assert(split(a.push(d), d) == split(a, d).push(Seq::empty()));
    assert(Seq::<char>::empty() + b =~= b);
    assert(split(a.push(d) + b, d) =~= split(a, d).push(b));
}

/// Splitting what `join` built gives back the pieces, when none holds the separator.
pub proof fn lemma_split_join(pieces: Seq<Seq<char>>, d: char)
    requires
        pieces.len() >= 1,
        forall|k: int| 0 <= k < pieces.len() ==> free_of(#[trigger] pieces[k], d),
    ensures
        split(join(pieces, d), d) == pieces,
    decreases pieces.len(),
{
    if pieces.len() == 1 {
        lemma_split_piece(pieces[0], d);
        assert(seq![pieces[0]] =~= pieces);
    } else {
        let init = pieces.drop_last();
        assert forall|k: int| 0 <= k < init.len() implies free_of(#[trigger] init[k], d) by {
            assert(init[k] == pieces[k]);
        }
        lemma_split_join(init, d);
        assert(free_of(pieces[pieces.len() - 1], d));
        lemma_split_after_separator(join(init, d), pieces.last(), d);
        assert(init.push(pieces.last()) =~= pieces);
    }
}

proof fn lemma_numeral_free(n: nat, hex: bool)
    ensures
        free_of(numeral(n, hex), '|'),
        free_of(numeral(n, hex), ','),
{
    lemma_numeral(n, hex);
    assert forall|i: int| 0 <= i < numeral(n, hex).len() implies numeral(n, hex)[i] != '|'
        && numeral(n, hex)[i] != ',' by {
        lemma_digits_plain(numeral(n, hex), hex, i);
    }
}

proof fn lemma_signed_free(v: int)
    ensures
        free_of(signed_numeral(v), '|'),
        free_of(signed_numeral(v), ','),
{
    let s = signed_numeral(v);
    if v < 0 {
        let m = numeral((0 - v) as nat, false);
        lemma_numeral_free((0 - v) as nat, false);
        assert forall|i: int| 0 <= i < s.len() implies s[i] != '|' && s[i] != ',' by {
            if i > 0 {
                assert(s[i] == m[i - 1]);
            }
        }
    } else {
        lemma_numeral_free(v as nat, false);
    }
}

proof fn lemma_pair_free(a: Seq<char>, b: Seq<char>)
    requires
        free_of(a, '|'),
        free_of(b, '|'),
    ensures
        free_of(comma_pair(a, b), '|'),
{
    let p = comma_pair(a, b);
    assert forall|i: int| 0 <= i < p.len() implies p[i] != '|' by {
        if i < a.len() {
            assert(p[i] == a[i]);
        } else if i > a.len() {
            assert(p[i] == b[i - a.len() - 1]);
        }
    }
}

proof fn lemma_pair_split(a: Seq<char>, b: Seq<char>)
    requires
        free_of(a, ','),
        free_of(b, ','),
    ensures
        split(comma_pair(a, b), ',') == seq![a, b],
{
    lemma_split_after_separator(a, b, ',');
    lemma_split_piece(a, ',');
    assert(seq![a].push(b) =~= seq![a, b]);
}

/// Encoding a state as a telemetry response and decoding it gives the same
/// values back; only the timestamp is the decoder's own.
pub proof fn lemma_telemetry_round_trip(st: ControllerState, timestamp: u64)
    ensures
        telemetry_of(encode_telemetry(st), timestamp) == Some(
            ControllerState { timestamp, ..st },
        ),
{
    let f = telemetry_fields(st);
    let s = encode_telemetry(st);
    let j = join(f, '|');
    assert(s.take(4) =~= prompt());
    assert(s.skip(4) =~= j);
    lemma_numeral_free(st.id as nat, false);
    lemma_signed_free(st.left_stick_x as int);
    lemma_signed_free(st.left_stick_y as int);
    lemma_signed_free(st.right_stick_x as int);
    lemma_signed_free(st.right_stick_y as int);
    lemma_numeral_free(st.left_trigger as nat, false);
    lemma_numeral_free(st.right_trigger as nat, false);
    lemma_numeral_free(st.buttons as nat, true);
    lemma_numeral_free(st.dpad as nat, false);
    lemma_numeral_free(st.battery as nat, false);
    lemma_pair_free(signed_numeral(st.left_stick_x as int), signed_numeral(st.left_stick_y as int));
    lemma_pair_free(
        signed_numeral(st.right_stick_x as int),
        signed_numeral(st.right_stick_y as int),
    );
    lemma_pair_free(numeral(st.left_trigger as nat, false), numeral(st.right_trigger as nat, false));
    let hx = seq!['0', 'x'] + numeral(st.buttons as nat, true);
    assert forall|i: int| 0 <= i < hx.len() implies hx[i] != '|' by {
        if i >= 2 {
            assert(hx[i] == numeral(st.buttons as nat, true)[i - 2]);
        }
    }
    assert forall|k: int| 0 <= k < f.len() implies free_of(#[trigger] f[k], '|') by {
        if k == 0 {
            assert(free_of(input_tag(), '|'));
        }
    }
    lemma_split_join(f, '|');
    assert(fields_of(s) == f);
    lemma_pair_split(signed_numeral(st.left_stick_x as int), signed_numeral(st.left_stick_y as int));
    lemma_pair_split(
        signed_numeral(st.right_stick_x as int),
        signed_numeral(st.right_stick_y as int),
    );
    lemma_pair_split(numeral(st.left_trigger as nat, false), numeral(st.right_trigger as nat, false));
    lemma_u8_numeral(st.id);
    lemma_i16_numeral(st.left_stick_x);
    lemma_i16_numeral(st.left_stick_y);
    lemma_i16_numeral(st.right_stick_x);
    lemma_i16_numeral(st.right_stick_y);
    lemma_u8_numeral(st.left_trigger);
    lemma_u8_numeral(st.right_trigger);
    lemma_hex_numeral(st.buttons);
    lemma_u8_numeral(st.dpad);
    lemma_u8_numeral(st.battery);
}

} // verus!
