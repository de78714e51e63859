//! The protocol codec: typed outbound commands, inbound responses and
//! events, and the mapping between them and wire lines.
//!
//! Outbound, a command is one line `{"command":[...],"request_id":N}`.
//! Inbound, a line is a response `{"request_id":N,"error":E,"data":D}` or an
//! event `{"event":NAME,"id":I,"name":P,"data":D}`; anything else is a
//! protocol error and the caller drops the line.

use vstd::prelude::*;

use crate::json::Field;
use crate::json::FieldS;
use crate::json::ValS;
use crate::json::Value;
use crate::json::is_num_char;
use crate::json::pairs_view;
use crate::json::parse_obj;
use crate::json::render_obj;
use crate::json::sp_line;
use crate::json::sr_obj;
use crate::json::vals_view;
use crate::json::wf_num;
use crate::json::wf_pairs;
use crate::text::all_digits;
use crate::text::dec_digits;
use crate::text::digits_val;
use crate::text::fmt_u64;
use crate::text::lemma_dec_digits_wf;
use crate::text::lemma_digits_roundtrip;
use crate::text::parse_u64;
use crate::text::str_chars;
use crate::text::chars_to_string;

verus! {

/// How a seek amount is meant: an offset from the current position or an
/// absolute position.
#[derive(Clone, Copy, PartialEq, Eq, Structural, Debug)]
pub enum SeekMode {
    Relative,
    Absolute,
}

/// The closed set of commands the client sends. Building commands through
/// these constructors, rather than from loose values, keeps malformed
/// requests off the wire.
#[derive(Debug, PartialEq)]
pub enum Command {
    /// Start playing the given URL or path.
    LoadFile { target: String },
    /// Set a boolean property such as `pause`.
    SetPropertyBool { name: String, value: bool },
    /// Set an integer property such as `volume`.
    SetPropertyInt { name: String, value: i64 },
    /// Seek by or to the given number of seconds.
    Seek { seconds: i64, mode: SeekMode },
    /// Add a delta to an integer property.
    Add { name: String, delta: i64 },
    /// Subscribe to change events for a property, under a caller-chosen
    /// observer id.
    ObserveProperty { observer_id: u64, name: String },
    /// Ask the player to exit.
    Quit,
}

/// The spec-level shape of a command.
pub enum CmdS {
    LoadFile { target: Seq<char> },
    SetPropertyBool { name: Seq<char>, value: bool },
    SetPropertyInt { name: Seq<char>, value: int },
    Seek { seconds: int, mode: SeekMode },
    Add { name: Seq<char>, delta: int },
    ObserveProperty { observer_id: int, name: Seq<char> },
    Quit,
}

impl View for Command {
    type V = CmdS;

    open spec fn view(&self) -> CmdS {
        match self {
            Command::LoadFile { target } => CmdS::LoadFile { target: target@ },
            Command::SetPropertyBool { name, value } => CmdS::SetPropertyBool {
                name: name@,
                value: *value,
            },
            Command::SetPropertyInt { name, value } => CmdS::SetPropertyInt {
                name: name@,
                value: *value as int,
            },
            Command::Seek { seconds, mode } => CmdS::Seek {
                seconds: *seconds as int,
                mode: *mode,
            },
            Command::Add { name, delta } => CmdS::Add { name: name@, delta: *delta as int },
            Command::ObserveProperty { observer_id, name } => CmdS::ObserveProperty {
                observer_id: *observer_id as int,
                name: name@,
            },
            Command::Quit => CmdS::Quit,
        }
    }
}

/// Numeric fields of a command lie in the machine ranges the executable
/// type gives them. The view of every `Command` satisfies this.
pub open spec fn wf_cmd(c: CmdS) -> bool {
    match c {
        CmdS::SetPropertyInt { name, value } => i64::MIN <= value <= i64::MAX,
        CmdS::Seek { seconds, mode } => i64::MIN <= seconds <= i64::MAX,
        CmdS::Add { name, delta } => i64::MIN <= delta <= i64::MAX,
        CmdS::ObserveProperty { observer_id, name } => 0 <= observer_id <= u64::MAX,
        _ => true,
    }
}

/// Every constructible `Command` satisfies `wf_cmd`, so the round trip
/// `lemma_command_roundtrip` covers every command a caller can build.
pub proof fn lemma_view_wf(c: &Command)
    ensures
        wf_cmd(c@),
{
}

// ---------------------------------------------------------------------
// wire words
// ---------------------------------------------------------------------
pub open spec fn lit_loadfile() -> Seq<char> {
    seq!['l', 'o', 'a', 'd', 'f', 'i', 'l', 'e']
}

pub open spec fn lit_set_property() -> Seq<char> {
    seq!['s', 'e', 't', '_', 'p', 'r', 'o', 'p', 'e', 'r', 't', 'y']
}

pub open spec fn lit_seek() -> Seq<char> {
    seq!['s', 'e', 'e', 'k']
}

pub open spec fn lit_add() -> Seq<char> {
    seq!['a', 'd', 'd']
}

pub open spec fn lit_observe_property() -> Seq<char> {
    seq!['o', 'b', 's', 'e', 'r', 'v', 'e', '_', 'p', 'r', 'o', 'p', 'e', 'r', 't', 'y']
}

pub open spec fn lit_quit() -> Seq<char> {
    seq!['q', 'u', 'i', 't']
}

pub open spec fn lit_relative() -> Seq<char> {
    seq!['r', 'e', 'l', 'a', 't', 'i', 'v', 'e']
}

pub open spec fn lit_absolute() -> Seq<char> {
    seq!['a', 'b', 's', 'o', 'l', 'u', 't', 'e']
}

pub open spec fn lit_command() -> Seq<char> {
    seq!['c', 'o', 'm', 'm', 'a', 'n', 'd']
}

pub open spec fn lit_request_id() -> Seq<char> {
    seq!['r', 'e', 'q', 'u', 'e', 's', 't', '_', 'i', 'd']
}

pub open spec fn lit_event() -> Seq<char> {
    seq!['e', 'v', 'e', 'n', 't']
}

pub open spec fn lit_id() -> Seq<char> {
    seq!['i', 'd']
}

pub open spec fn lit_name() -> Seq<char> {
    seq!['n', 'a', 'm', 'e']
}

pub open spec fn lit_data() -> Seq<char> {
    seq!['d', 'a', 't', 'a']
}

pub open spec fn lit_error() -> Seq<char> {
    seq!['e', 'r', 'r', 'o', 'r']
}

pub open spec fn lit_success() -> Seq<char> {
    seq!['s', 'u', 'c', 'c', 'e', 's', 's']
}

// ---------------------------------------------------------------------
// integer lexemes
// ---------------------------------------------------------------------
/// The decimal lexeme of an integer: canonical digits, `-` in front of a
/// negative number.
pub open spec fn int_lex(n: int) -> Seq<char> {
    if n >= 0 {
        dec_digits(n as nat)
    } else {
        seq!['-'] + dec_digits((-n) as nat)
    }
}

/// The integer a lexeme denotes: plain digits, or `-` and digits.
pub open spec fn lex_int(s: Seq<char>) -> Option<int> {
    if s.len() > 0 && all_digits(s) {
        Some(digits_val(s) as int)
    } else if s.len() > 1 && s[0] == '-' && all_digits(s.skip(1)) {
        Some(-(digits_val(s.skip(1)) as int))
    } else {
        None
    }
}

/// The unsigned integer a digits-only lexeme denotes, if it fits a `u64`.
pub open spec fn lex_u64(s: Seq<char>) -> Option<int> {
    if s.len() > 0 && all_digits(s) && digits_val(s) <= u64::MAX {
        Some(digits_val(s) as int)
    } else {
        None
    }
}

pub proof fn lemma_lex_u64_roundtrip(n: int)
    requires
        0 <= n <= u64::MAX,
    ensures
        lex_u64(int_lex(n)) == Some(n),
{
    lemma_dec_digits_wf(n as nat);
    lemma_digits_roundtrip(n as nat);
}

pub proof fn lemma_int_lex_wf(n: int)
    ensures
        wf_num(int_lex(n)),
{
    if n >= 0 {
        lemma_dec_digits_wf(n as nat);
        assert forall|i: int| 0 <= i < int_lex(n).len() implies is_num_char(
            #[trigger] int_lex(n)[i],
        ) by {
            assert(crate::text::is_digit(dec_digits(n as nat)[i]));
        }
    } else {
        lemma_dec_digits_wf((-n) as nat);
        let s = int_lex(n);
        assert(s[0] == '-');
        assert forall|i: int| 0 <= i < s.len() implies is_num_char(#[trigger] s[i]) by {
            if i > 0 {
                assert(s[i] == dec_digits((-n) as nat)[i - 1]);
            }
        }
    }
}

pub proof fn lemma_lex_int_roundtrip(n: int)
    ensures
        lex_int(int_lex(n)) == Some(n),
{
    if n >= 0 {
        lemma_dec_digits_wf(n as nat);
        lemma_digits_roundtrip(n as nat);
    } else {
        lemma_dec_digits_wf((-n) as nat);
        lemma_digits_roundtrip((-n) as nat);
        let s = int_lex(n);
        assert(s.skip(1) =~= dec_digits((-n) as nat));
        assert(!all_digits(s)) by {
            assert(s[0] == '-');
        }
    }
}

/// The decimal lexeme of a signed integer.
pub fn fmt_i64(n: i64) -> (r: Vec<char>)
    ensures
        r@ == int_lex(n as int),
{
    if n >= 0 {
        let r = fmt_u64(n as u64);
        r
    } else {
        let m: u64 = if n == i64::MIN {
            9223372036854775808u64
        } else {
            (-n) as u64
        };
        let mut r: Vec<char> = Vec::new();
        r.push('-');
        let ds = fmt_u64(m);
        let mut k: usize = 0;
        while k < ds.len()
            invariant
                k <= ds@.len(),
                ds@ == dec_digits(m as nat),
                r@ == seq!['-'] + ds@.subrange(0, k as int),
            decreases ds@.len() - k,
        {
            r.push(ds[k]);
            proof {
                assert(r@ =~= seq!['-'] + ds@.subrange(0, k + 1));
            }
            k = k + 1;
        }
        proof {
            assert(ds@.subrange(0, ds@.len() as int) =~= ds@);
            assert(m as nat == (-(n as int)) as nat);
        }
        r
    }
}

/// Reads a signed decimal lexeme, if it denotes a value an `i64` holds.
pub fn parse_i64_lex(s: &Vec<char>) -> (r: Option<i64>)
    ensures
        match r {
            Some(x) => lex_int(s@) == Some(x as int),
            None => lex_int(s@) is None || !(i64::MIN <= lex_int(s@)->Some_0 <= i64::MAX),
        },
{
    if s.len() == 0 {
        return None;
    }
    if s[0] == '-' {
        let ghost tail = s@.skip(1);
        match parse_u64(s, 1, s.len()) {
            Some(m) => {
                proof {
                    assert(s@.subrange(1, s@.len() as int) =~= tail);
                    assert(!all_digits(s@)) by {
                        assert(s@[0] == '-');
                    }
                }
                if m <= 9223372036854775807u64 {
                    Some(-(m as i64))
                } else if m == 9223372036854775808u64 {
                    Some(i64::MIN)
                } else {
                    None
                }
            },
            None => {
                proof {
                    assert(s@.subrange(1, s@.len() as int) =~= tail);
                    if tail.len() > 0 && all_digits(tail) {
                        assert(digits_val(tail) > u64::MAX);
                        assert(!all_digits(s@)) by {
                            assert(s@[0] == '-');
                        }
                    } else {
                        assert(!(s@.len() > 0 && all_digits(s@))) by {
                            if s@.len() > 0 && all_digits(s@) {
                                assert(crate::text::is_digit(s@[0]));
                            }
                        }
                    }
                }
                None
            },
        }
    } else {
        let ghost whole = s@;
        match parse_u64(s, 0, s.len()) {
            Some(m) => {
                proof {
                    assert(s@.subrange(0, s@.len() as int) =~= whole);
                }
                if m <= 9223372036854775807u64 {
                    Some(m as i64)
                } else {
                    None
                }
            },
            None => {
                proof {
                    assert(s@.subrange(0, s@.len() as int) =~= whole);
                }
                None
            },
        }
    }
}

/// Reads an unsigned decimal lexeme, if it denotes a value a `u64` holds.
pub fn parse_u64_lex(s: &Vec<char>) -> (r: Option<u64>)
    ensures
        match r {
            Some(x) => s@.len() > 0 && all_digits(s@) && digits_val(s@) == x,
            None => s@.len() == 0 || !all_digits(s@) || digits_val(s@) > u64::MAX,
        },
{
    let r = parse_u64(s, 0, s.len());
    proof {
        assert(s@.subrange(0, s@.len() as int) =~= s@);
    }
    r
}

// ---------------------------------------------------------------------
// encoding commands
// ---------------------------------------------------------------------
/// The argument array of a command on the wire.
pub open spec fn cmd_args(c: CmdS) -> Seq<ValS> {
    match c {
        CmdS::LoadFile { target } => seq![ValS::Str(lit_loadfile()), ValS::Str(target)],
        CmdS::SetPropertyBool { name, value } => seq![
            ValS::Str(lit_set_property()),
            ValS::Str(name),
            ValS::Bool(value),
        ],
        CmdS::SetPropertyInt { name, value } => seq![
            ValS::Str(lit_set_property()),
            ValS::Str(name),
            ValS::Num(int_lex(value)),
        ],
        CmdS::Seek { seconds, mode } => seq![
            ValS::Str(lit_seek()),
            ValS::Num(int_lex(seconds)),
            ValS::Str(
                if mode is Relative {
                    lit_relative()
                } else {
                    lit_absolute()
                },
            ),
        ],
        CmdS::Add { name, delta } => seq![
            ValS::Str(lit_add()),
            ValS::Str(name),
            ValS::Num(int_lex(delta)),
        ],
        CmdS::ObserveProperty { observer_id, name } => seq![
            ValS::Str(lit_observe_property()),
            ValS::Num(int_lex(observer_id)),
            ValS::Str(name),
        ],
        CmdS::Quit => seq![ValS::Str(lit_quit())],
    }
}

/// The fields of an encoded command line.
pub open spec fn cmd_pairs(c: CmdS, id: int) -> Seq<(Seq<char>, FieldS)> {
    seq![
        (lit_command(), FieldS::Arr(cmd_args(c))),
        (lit_request_id(), FieldS::Val(ValS::Num(int_lex(id)))),
    ]
}

/// The exact line `encode_command` produces.
pub open spec fn spec_encode(c: CmdS, id: int) -> Seq<char> {
    sr_obj(cmd_pairs(c, id))
}

fn string_of_chars(v: Vec<char>) -> (r: String)
    ensures
        r@ == v@,
{
    let n = v.len();
    let r = chars_to_string(&v, 0, n);
    proof {
        assert(v@.subrange(0, v@.len() as int) =~= v@);
    }
    r
}

/// Encodes one command under the given request id, exactly as
/// `spec_encode` states.
pub fn encode_command(c: &Command, id: u64) -> (r: String)
    ensures
        r@ == spec_encode(c@, id as int),
{
    let mut args: Vec<Value> = Vec::new();
    match c {
        Command::LoadFile { target } => {
            args.push(Value::Str("loadfile".to_owned()));
            args.push(Value::Str(target.clone()));
            proof {
                reveal_strlit("loadfile");
                assert("loadfile"@ =~= lit_loadfile());
                assert(vals_view(args@) =~= cmd_args(c@));
            }
        },
        Command::SetPropertyBool { name, value } => {
            args.push(Value::Str("set_property".to_owned()));
            args.push(Value::Str(name.clone()));
            args.push(Value::Bool(*value));
            proof {
                reveal_strlit("set_property");
                assert("set_property"@ =~= lit_set_property());
                assert(vals_view(args@) =~= cmd_args(c@));
            }
        },
        Command::SetPropertyInt { name, value } => {
            args.push(Value::Str("set_property".to_owned()));
            args.push(Value::Str(name.clone()));
            args.push(Value::Num(string_of_chars(fmt_i64(*value))));
            proof {
                reveal_strlit("set_property");
                assert("set_property"@ =~= lit_set_property());
                assert(vals_view(args@) =~= cmd_args(c@));
            }
        },
        Command::Seek { seconds, mode } => {
            args.push(Value::Str("seek".to_owned()));
            args.push(Value::Num(string_of_chars(fmt_i64(*seconds))));
            match mode {
                SeekMode::Relative => {
                    args.push(Value::Str("relative".to_owned()));
                },
                SeekMode::Absolute => {
                    args.push(Value::Str("absolute".to_owned()));
                },
            }
            proof {
                reveal_strlit("seek");
                reveal_strlit("relative");
                reveal_strlit("absolute");
                assert("seek"@ =~= lit_seek());
                assert("relative"@ =~= lit_relative());
                assert("absolute"@ =~= lit_absolute());
                assert(vals_view(args@) =~= cmd_args(c@));
            }
        },
        Command::Add { name, delta } => {
            args.push(Value::Str("add".to_owned()));
            args.push(Value::Str(name.clone()));
            args.push(Value::Num(string_of_chars(fmt_i64(*delta))));
            proof {
                reveal_strlit("add");
                assert("add"@ =~= lit_add());
                assert(vals_view(args@) =~= cmd_args(c@));
            }
        },
        Command::ObserveProperty { observer_id, name } => {
            args.push(Value::Str("observe_property".to_owned()));
            args.push(Value::Num(string_of_chars(fmt_u64(*observer_id))));
            args.push(Value::Str(name.clone()));
            proof {
                reveal_strlit("observe_property");
                assert("observe_property"@ =~= lit_observe_property());
                assert(vals_view(args@) =~= cmd_args(c@));
            }
        },
        Command::Quit => {
            args.push(Value::Str("quit".to_owned()));
            proof {
                reveal_strlit("quit");
                assert("quit"@ =~= lit_quit());
                assert(vals_view(args@) =~= cmd_args(c@));
            }
        },
    }
    let mut pairs: Vec<(String, Field)> = Vec::new();
    pairs.push(("command".to_owned(), Field::Arr(args)));
    pairs.push(("request_id".to_owned(), Field::Val(Value::Num(string_of_chars(fmt_u64(id))))));
    let line = render_obj(&pairs);
    proof {
        reveal_strlit("command");
        reveal_strlit("request_id");
        assert("command"@ =~= lit_command());
        assert("request_id"@ =~= lit_request_id());
        assert(pairs_view(pairs@) =~= cmd_pairs(c@, id as int));
    }
    line
}

// ---------------------------------------------------------------------
// decoding
// ---------------------------------------------------------------------
/// The first field under the given key, if any.
pub open spec fn find_field(pairs: Seq<(Seq<char>, FieldS)>, key: Seq<char>) -> Option<FieldS>
    decreases pairs.len(),
{
    if pairs.len() == 0 {
        None
    } else if pairs[0].0 == key {
        Some(pairs[0].1)
    } else {
        find_field(pairs.skip(1), key)
    }
}

pub open spec fn seek_mode_of(s: Seq<char>) -> Option<SeekMode> {
    if s == lit_relative() {
        Some(SeekMode::Relative)
    } else if s == lit_absolute() {
        Some(SeekMode::Absolute)
    } else {
        None
    }
}

pub open spec fn in_i64(v: int) -> bool {
    i64::MIN <= v <= i64::MAX
}

pub open spec fn in_u64(v: int) -> bool {
    0 <= v <= u64::MAX
}

/// The command an argument array denotes, if any.
pub open spec fn cmd_of_args(args: Seq<ValS>) -> Option<CmdS> {
    if args.len() < 1 {
        None
    } else {
        match args[0] {
            ValS::Str(w) => {
                if w == lit_loadfile() {
                    if args.len() == 2 && args[1] is Str {
                        Some(CmdS::LoadFile { target: args[1]->Str_0 })
                    } else {
                        None
                    }
                } else if w == lit_set_property() {
                    if args.len() == 3 && args[1] is Str {
                        match args[2] {
                            ValS::Bool(b) => Some(
                                CmdS::SetPropertyBool { name: args[1]->Str_0, value: b },
                            ),
                            ValS::Num(lex) => match lex_int(lex) {
                                Some(v) => if in_i64(v) {
                                    Some(CmdS::SetPropertyInt { name: args[1]->Str_0, value: v })
                                } else {
                                    None
                                },
                                None => None,
                            },
                            _ => None,
                        }
                    } else {
                        None
                    }
                } else if w == lit_seek() {
                    if args.len() == 3 && args[1] is Num && args[2] is Str {
                        match (lex_int(args[1]->Num_0), seek_mode_of(args[2]->Str_0)) {
                            (Some(v), Some(m)) => if in_i64(v) {
                                Some(CmdS::Seek { seconds: v, mode: m })
                            } else {
                                None
                            },
                            _ => None,
                        }
                    } else {
                        None
                    }
                } else if w == lit_add() {
                    if args.len() == 3 && args[1] is Str && args[2] is Num {
                        match lex_int(args[2]->Num_0) {
                            Some(v) => if in_i64(v) {
                                Some(CmdS::Add { name: args[1]->Str_0, delta: v })
                            } else {
                                None
                            },
                            None => None,
                        }
                    } else {
                        None
                    }
                } else if w == lit_observe_property() {
                    if args.len() == 3 && args[1] is Num && args[2] is Str {
                        match lex_u64(args[1]->Num_0) {
                            Some(v) => Some(
                                CmdS::ObserveProperty { observer_id: v, name: args[2]->Str_0 },
                            ),
                            None => None,
                        }
                    } else {
                        None
                    }
                } else if w == lit_quit() {
                    if args.len() == 1 {
                        Some(CmdS::Quit)
                    } else {
                        None
                    }
                } else {
                    None
                }
            },
            _ => None,
        }
    }
}

/// The command and request id a parsed line denotes, if any.
pub open spec fn cmd_of_pairs(pairs: Seq<(Seq<char>, FieldS)>) -> Option<(CmdS, int)> {
    match (find_field(pairs, lit_command()), find_field(pairs, lit_request_id())) {
        (Some(FieldS::Arr(args)), Some(FieldS::Val(ValS::Num(lex)))) => {
            match (cmd_of_args(args), lex_u64(lex)) {
                (Some(c), Some(id)) => Some((c, id)),
                _ => None,
            }
        },
        _ => None,
    }
}

/// What `decode_command` reads out of a line.
pub open spec fn spec_decode_command(line: Seq<char>) -> Option<(CmdS, int)> {
    match sp_line(line) {
        Some(ps) => cmd_of_pairs(ps),
        None => None,
    }
}

proof fn lemma_cmd_pairs_wf(c: CmdS, id: int)
    requires
        wf_cmd(c),
        0 <= id <= u64::MAX,
    ensures
        wf_pairs(cmd_pairs(c, id)),
{
    let args = cmd_args(c);
    let ps = cmd_pairs(c, id);
    lemma_int_lex_wf(id);
    assert(wf_pairs(ps)) by {
        assert(crate::json::wf_field(ps[0].1)) by {
            assert forall|i: int| 0 <= i < args.len() implies crate::json::wf_val(
                #[trigger] args[i],
            ) by {
                match c {
                    CmdS::SetPropertyInt { name, value } => {
                        lemma_int_lex_wf(value);
                    },
                    CmdS::Seek { seconds, mode } => {
                        lemma_int_lex_wf(seconds);
                    },
                    CmdS::Add { name, delta } => {
                        lemma_int_lex_wf(delta);
                    },
                    CmdS::ObserveProperty { observer_id, name } => {
                        lemma_int_lex_wf(observer_id);
                    },
                    _ => {},
                }
            }
        }
        assert(crate::json::wf_field(ps[1].1));
        assert forall|i: int| 0 <= i < ps.len() implies crate::json::wf_field(
            #[trigger] ps[i].1,
        ) by {
            if i == 0 {
            } else {
                assert(i == 1);
            }
        }
    }
}

proof fn lemma_cmd_fields_found(c: CmdS, id: int)
    ensures
        find_field(cmd_pairs(c, id), lit_command()) == Some(FieldS::Arr(cmd_args(c))),
        find_field(cmd_pairs(c, id), lit_request_id()) == Some(
            FieldS::Val(ValS::Num(int_lex(id))),
        ),
{
    let ps = cmd_pairs(c, id);
    assert(lit_command().len() == 7 && lit_request_id().len() == 10);
    assert(find_field(ps, lit_command()) == Some(ps[0].1));
    assert(ps.skip(1) =~= seq![ps[1]]);
    assert(find_field(ps, lit_request_id()) == find_field(ps.skip(1), lit_request_id()));
    assert(find_field(ps.skip(1), lit_request_id()) == Some(ps[1].1)) by {
        assert(ps.skip(1)[0] == ps[1]);
    }
}

#[verifier::rlimit(50)]
proof fn lemma_cmd_args_decode(c: CmdS)
    requires
        wf_cmd(c),
    ensures
        cmd_of_args(cmd_args(c)) == Some(c),
{
    let args = cmd_args(c);
    assert(cmd_of_args(args) == Some(c)) by {
        match c {
            CmdS::LoadFile { target } => {
            },
            CmdS::SetPropertyBool { name, value } => {
                assert(lit_set_property().len() == 12 && lit_loadfile().len() == 8);
            },
            CmdS::SetPropertyInt { name, value } => {
                assert(lit_set_property().len() == 12 && lit_loadfile().len() == 8);
                lemma_lex_int_roundtrip(value);
            },
            CmdS::Seek { seconds, mode } => {
                assert(lit_seek().len() == 4 && lit_loadfile().len() == 8
                    && lit_set_property().len() == 12);
                lemma_lex_int_roundtrip(seconds);
                assert(lit_relative()[0] == 'r' && lit_absolute()[0] == 'a');
            },
            CmdS::Add { name, delta } => {
                assert(lit_add().len() == 3 && lit_loadfile().len() == 8 && lit_seek().len() == 4
                    && lit_set_property().len() == 12);
                lemma_lex_int_roundtrip(delta);
            },
            CmdS::ObserveProperty { observer_id, name } => {
                assert(lit_observe_property().len() == 16 && lit_loadfile().len() == 8
                    && lit_seek().len() == 4 && lit_set_property().len() == 12 && lit_add().len()
                    == 3);
                lemma_lex_u64_roundtrip(observer_id);
            },
            CmdS::Quit => {
                assert(lit_quit().len() == 4 && lit_loadfile().len() == 8 && lit_set_property().len()
                    == 12 && lit_add().len() == 3);
                assert(lit_quit()[0] == 'q' && lit_seek()[0] == 's');
            },
        }
    }
}

/// Round trip: decoding an encoded command gives back the command and its
/// request id, for every command shape and every id.
pub proof fn lemma_command_roundtrip(c: CmdS, id: int)
    requires
        wf_cmd(c),
        0 <= id <= u64::MAX,
    ensures
        spec_decode_command(spec_encode(c, id)) == Some((c, id)),
{
    lemma_cmd_pairs_wf(c, id);
    crate::json::lemma_line_rt(cmd_pairs(c, id));
    lemma_cmd_fields_found(c, id);
    lemma_cmd_args_decode(c);
    lemma_lex_u64_roundtrip(id);
}

// ---------------------------------------------------------------------
// executable decoding
// ---------------------------------------------------------------------
fn find_field_exec<'a>(ps: &'a Vec<(String, Field)>, key: &String) -> (r: Option<&'a Field>)
    ensures
        match r {
            Some(f) => find_field(pairs_view(ps@), key@) == Some(f@),
            None => find_field(pairs_view(ps@), key@) is None,
        },
{
    let ghost pv = pairs_view(ps@);
    proof {
        assert(pv.skip(0) =~= pv);
    }
    let mut k: usize = 0;
    while k < ps.len()
        invariant
            k <= ps@.len(),
            pv == pairs_view(ps@),
            pv.len() == ps@.len(),
            find_field(pv, key@) == find_field(pv.skip(k as int), key@),
        decreases ps@.len() - k,
    {
        proof {
            assert(pv.skip(k as int)[0] == pv[k as int]);
            assert(pv[k as int] == (ps@[k as int].0@, ps@[k as int].1@));
            assert(pv.skip(k as int).skip(1) =~= pv.skip(k + 1));
        }
        if ps[k].0 == *key {
            return Some(&ps[k].1);
        }
        k = k + 1;
    }
    proof {
        assert(pv.skip(ps@.len() as int) =~= Seq::<(Seq<char>, FieldS)>::empty());
    }
    None
}

fn parse_i64_str(lex: &String) -> (r: Option<i64>)
    ensures
        match r {
            Some(x) => lex_int(lex@) == Some(x as int),
            None => lex_int(lex@) is None || !in_i64(lex_int(lex@)->Some_0),
        },
{
    let v = str_chars(lex.as_str());
    parse_i64_lex(&v)
}

fn parse_u64_str(lex: &String) -> (r: Option<u64>)
    ensures
        match r {
            Some(x) => lex_u64(lex@) == Some(x as int),
            None => lex_u64(lex@) is None,
        },
{
    let v = str_chars(lex.as_str());
    parse_u64_lex(&v)
}

fn cmd_of_args_exec(args: &Vec<Value>) -> (r: Option<(Command, ())>)
    ensures
        match r {
            Some((c, u)) => cmd_of_args(vals_view(args@)) == Some(c@),
            None => cmd_of_args(vals_view(args@)) is None,
        },
{
    let ghost av = vals_view(args@);
    if args.len() < 1 {
        return None;
    }
    proof {
        assert(av[0] == args@[0]@);
        if args@.len() >= 2 {
            assert(av[1] == args@[1]@);
        }
        if args@.len() >= 3 {
            assert(av[2] == args@[2]@);
        }
        reveal_strlit("loadfile");
        reveal_strlit("set_property");
        reveal_strlit("seek");
        reveal_strlit("add");
        reveal_strlit("observe_property");
        reveal_strlit("quit");
        reveal_strlit("relative");
        reveal_strlit("absolute");
        assert("loadfile"@ =~= lit_loadfile());
        assert("set_property"@ =~= lit_set_property());
        assert("seek"@ =~= lit_seek());
        assert("add"@ =~= lit_add());
        assert("observe_property"@ =~= lit_observe_property());
        assert("quit"@ =~= lit_quit());
        assert("relative"@ =~= lit_relative());
        assert("absolute"@ =~= lit_absolute());
    }
    let w = match &args[0] {
        Value::Str(w) => w,
        _ => {
            return None;
        },
    };
    let k_loadfile = "loadfile".to_owned();
    let k_set_property = "set_property".to_owned();
    let k_seek = "seek".to_owned();
    let k_add = "add".to_owned();
    let k_observe_property = "observe_property".to_owned();
    let k_quit = "quit".to_owned();
    if *w == k_loadfile {
        if args.len() == 2 {
            match &args[1] {
                Value::Str(t) => Some((Command::LoadFile { target: t.clone() }, ())),
                _ => None,
            }
        } else {
            None
        }
    } else if *w == k_set_property {
        if args.len() == 3 {
            match (&args[1], &args[2]) {
                (Value::Str(n), Value::Bool(b)) => Some(
                    (Command::SetPropertyBool { name: n.clone(), value: *b }, ()),
                ),
                (Value::Str(n), Value::Num(lex)) => {
                    match parse_i64_str(lex) {
                        Some(v) => Some(
                            (Command::SetPropertyInt { name: n.clone(), value: v }, ()),
                        ),
                        None => None,
                    }
                },
                _ => None,
            }
        } else {
            None
        }
    } else if *w == k_seek {
        if args.len() == 3 {
            match (&args[1], &args[2]) {
                (Value::Num(lex), Value::Str(m)) => {
                    let k_relative = "relative".to_owned();
                    let k_absolute = "absolute".to_owned();
                    let mode = if *m == k_relative {
                        Some(SeekMode::Relative)
                    } else if *m == k_absolute {
                        Some(SeekMode::Absolute)
                    } else {
                        None
                    };
                    match (parse_i64_str(lex), mode) {
                        (Some(v), Some(md)) => Some((Command::Seek { seconds: v, mode: md }, ())),
                        _ => None,
                    }
                },
                _ => None,
            }
        } else {
            None
        }
    } else if *w == k_add {
        if args.len() == 3 {
            match (&args[1], &args[2]) {
                (Value::Str(n), Value::Num(lex)) => {
                    match parse_i64_str(lex) {
                        Some(v) => Some((Command::Add { name: n.clone(), delta: v }, ())),
                        None => None,
                    }
                },
                _ => None,
            }
        } else {
            None
        }
    } else if *w == k_observe_property {
        if args.len() == 3 {
            match (&args[1], &args[2]) {
                (Value::Num(lex), Value::Str(n)) => {
                    match parse_u64_str(lex) {
                        Some(v) => Some(
                            (Command::ObserveProperty { observer_id: v, name: n.clone() }, ()),
                        ),
                        None => None,
                    }
                },
                _ => None,
            }
        } else {
            None
        }
    } else if *w == k_quit {
        if args.len() == 1 {
            Some((Command::Quit, ()))
        } else {
            None
        }
    } else {
        None
    }
}

/// Reads a command line back into the command and request id it encodes.
/// The inverse of `encode_command` on every encoded line; `None` on
/// anything else.
pub fn decode_command(line: &str) -> (r: Option<(Command, u64)>)
    ensures
        match r {
            Some((c, id)) => spec_decode_command(line@) == Some((c@, id as int)),
            None => spec_decode_command(line@) is None,
        },
{
    let chars = str_chars(line);
    let ps = match parse_obj(&chars) {
        Some(ps) => ps,
        None => {
            return None;
        },
    };
    proof {
        reveal_strlit("command");
        reveal_strlit("request_id");
        assert("command"@ =~= lit_command());
        assert("request_id"@ =~= lit_request_id());
    }
    let cf = find_field_exec(&ps, &"command".to_owned());
    let rf = find_field_exec(&ps, &"request_id".to_owned());
    match (cf, rf) {
        (Some(Field::Arr(args)), Some(Field::Val(Value::Num(lex)))) => {
            match (cmd_of_args_exec(args), parse_u64_str(lex)) {
                (Some((c, _u)), Some(id)) => Some((c, id)),
                _ => None,
            }
        },
        _ => None,
    }
}

// ---------------------------------------------------------------------
// inbound messages
// ---------------------------------------------------------------------
/// A reply to one command, matched by request id. `error` is the player's
/// status word; anything other than `success` is a rejection.
#[derive(Debug, PartialEq)]
pub struct Response {
    pub request_id: u64,
    pub error: String,
    pub data: Value,
}

/// The spec-level shape of a response.
pub struct RespS {
    pub request_id: int,
    pub error: Seq<char>,
    pub data: ValS,
}

impl View for Response {
    type V = RespS;

    open spec fn view(&self) -> RespS {
        RespS { request_id: self.request_id as int, error: self.error@, data: self.data@ }
    }
}

/// An unsolicited notification. A property-change event carries the
/// observer id it was registered under.
#[derive(Debug, PartialEq)]
pub struct Event {
    pub name: String,
    pub observer_id: Option<u64>,
    pub prop_name: Option<String>,
    pub data: Value,
}

/// The spec-level shape of an event.
pub struct EventS {
    pub name: Seq<char>,
    pub observer_id: Option<int>,
    pub prop_name: Option<Seq<char>>,
    pub data: ValS,
}

impl View for Event {
    type V = EventS;

    open spec fn view(&self) -> EventS {
        EventS {
            name: self.name@,
            observer_id: match self.observer_id {
                Some(v) => Some(v as int),
                None => None,
            },
            prop_name: match self.prop_name {
                Some(ref n) => Some(n@),
                None => None,
            },
            data: self.data@,
        }
    }
}

/// One decoded inbound line.
#[derive(Debug, PartialEq)]
pub enum Message {
    Response(Response),
    Event(Event),
}

/// The spec-level shape of an inbound line.
pub enum MsgS {
    Response(RespS),
    Event(EventS),
}

impl View for Message {
    type V = MsgS;

    open spec fn view(&self) -> MsgS {
        match self {
            Message::Response(r) => MsgS::Response(r@),
            Message::Event(e) => MsgS::Event(e@),
        }
    }
}

/// The observer id field of an event line: absent, or a `u64`. An
/// ill-shaped field rejects the line.
pub open spec fn oid_of(pairs: Seq<(Seq<char>, FieldS)>) -> Option<Option<int>> {
    match find_field(pairs, lit_id()) {
        None => Some(None),
        Some(FieldS::Val(ValS::Num(lex))) => match lex_u64(lex) {
            Some(v) => Some(Some(v)),
            None => None,
        },
        Some(_) => None,
    }
}

/// The property name field of an event line: absent or a string.
pub open spec fn pname_of(pairs: Seq<(Seq<char>, FieldS)>) -> Option<Option<Seq<char>>> {
    match find_field(pairs, lit_name()) {
        None => Some(None),
        Some(FieldS::Val(ValS::Str(n))) => Some(Some(n)),
        Some(_) => None,
    }
}

/// The data field: absent means null; an array is outside the scalar
/// grammar and rejects the line.
pub open spec fn data_of(pairs: Seq<(Seq<char>, FieldS)>) -> Option<ValS> {
    match find_field(pairs, lit_data()) {
        None => Some(ValS::Null),
        Some(FieldS::Val(v)) => Some(v),
        Some(FieldS::Arr(a)) => None,
    }
}

/// The message a parsed line denotes: an event when an `event` field is
/// present, else a response when a `request_id` field is present, else
/// nothing (a protocol error).
pub open spec fn msg_of_pairs(pairs: Seq<(Seq<char>, FieldS)>) -> Option<MsgS> {
    match find_field(pairs, lit_event()) {
        Some(FieldS::Val(ValS::Str(ename))) => {
            match (oid_of(pairs), pname_of(pairs), data_of(pairs)) {
                (Some(oid), Some(pn), Some(d)) => Some(
                    MsgS::Event(
                        EventS { name: ename, observer_id: oid, prop_name: pn, data: d },
                    ),
                ),
                _ => None,
            }
        },
        Some(_) => None,
        None => {
            match (find_field(pairs, lit_request_id()), find_field(pairs, lit_error()), data_of(
                pairs,
            )) {
                (
                    Some(FieldS::Val(ValS::Num(lex))),
                    Some(FieldS::Val(ValS::Str(err))),
                    Some(d),
                ) => {
                    match lex_u64(lex) {
                        Some(v) => Some(
                            MsgS::Response(RespS { request_id: v, error: err, data: d }),
                        ),
                        None => None,
                    }
                },
                _ => None,
            }
        },
    }
}

/// What `decode_line` reads out of one inbound line.
pub open spec fn spec_decode_line(line: Seq<char>) -> Option<MsgS> {
    match sp_line(line) {
        Some(ps) => msg_of_pairs(ps),
        None => None,
    }
}

/// Decodes one inbound line into a response or an event. `None` is a
/// protocol error: the caller logs and drops the line, never more.
pub fn decode_line(line: &str) -> (r: Option<Message>)
    ensures
        match r {
            Some(m) => spec_decode_line(line@) == Some(m@),
            None => spec_decode_line(line@) is None,
        },
{
    let chars = str_chars(line);
    let ps = match parse_obj(&chars) {
        Some(ps) => ps,
        None => {
            return None;
        },
    };
    proof {
        reveal_strlit("event");
        reveal_strlit("id");
        reveal_strlit("name");
        reveal_strlit("data");
        reveal_strlit("request_id");
        reveal_strlit("error");
        assert("event"@ =~= lit_event());
        assert("id"@ =~= lit_id());
        assert("name"@ =~= lit_name());
        assert("data"@ =~= lit_data());
        assert("request_id"@ =~= lit_request_id());
        assert("error"@ =~= lit_error());
    }
    let data: Value = match find_field_exec(&ps, &"data".to_owned()) {
        None => Value::Null,
        Some(Field::Val(v)) => v.clone_value(),
        Some(Field::Arr(_)) => {
            return None;
        },
    };
    match find_field_exec(&ps, &"event".to_owned()) {
        Some(Field::Val(Value::Str(ename))) => {
            let oid: Option<u64> = match find_field_exec(&ps, &"id".to_owned()) {
                None => None,
                Some(Field::Val(Value::Num(lex))) => {
                    match parse_u64_str(lex) {
                        Some(v) => Some(v),
                        None => {
                            return None;
                        },
                    }
                },
                Some(_) => {
                    return None;
                },
            };
            let pn: Option<String> = match find_field_exec(&ps, &"name".to_owned()) {
                None => None,
                Some(Field::Val(Value::Str(n))) => Some(n.clone()),
                Some(_) => {
                    return None;
                },
            };
            Some(
                Message::Event(
                    Event { name: ename.clone(), observer_id: oid, prop_name: pn, data },
                ),
            )
        },
        Some(_) => None,
        None => {
            match (find_field_exec(&ps, &"request_id".to_owned()), find_field_exec(
                &ps,
                &"error".to_owned(),
            )) {
                (Some(Field::Val(Value::Num(lex))), Some(Field::Val(Value::Str(err)))) => {
                    match parse_u64_str(lex) {
                        Some(v) => Some(
                            Message::Response(
                                Response { request_id: v, error: err.clone(), data },
                            ),
                        ),
                        None => None,
                    }
                },
                _ => None,
            }
        },
    }
}

/// Whether a response reports success.
pub fn response_is_success(r: &Response) -> (b: bool)
    ensures
        b == (r@.error == lit_success()),
{
    proof {
        reveal_strlit("success");
        assert("success"@ =~= lit_success());
    }
    let k = "success".to_owned();
    r.error == k
}

} // verus!
