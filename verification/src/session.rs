use vstd::prelude::*;
use vstd::string::*;
use crate::card::str_eq;
use crate::server::{Action, Create, Join, StartGame};

verus! {

/// The character has the Unicode property White_Space.
pub open spec fn is_white_space(c: char) -> bool {
    let v = c as u32;
    ||| 0x9 <= v <= 0xd
    ||| v == 0x20 || v == 0x85 || v == 0xa0 || v == 0x1680
    ||| 0x2000 <= v <= 0x200a
    ||| v == 0x2028 || v == 0x2029 || v == 0x202f || v == 0x205f || v == 0x3000
}

/// The text with leading and trailing white space removed, as `str::trim`
/// computes it.
pub open spec fn trimmed(s: Seq<char>) -> Seq<char>
    decreases s.len(),
{
    if s.len() > 0 && is_white_space(s[0]) {
        trimmed(s.drop_first())
    } else if s.len() > 0 && is_white_space(s.last()) {
        trimmed(s.drop_last())
    } else {
        s
    }
}

/// The text holds a space.
pub open spec fn has_space(s: Seq<char>) -> bool {
    exists|i: int| 0 <= i < s.len() && s[i] == ' '
}

/// The position of the first space of the text (meaningful when it has one).
pub open spec fn first_space(s: Seq<char>) -> int {
    choose|i: int| 0 <= i < s.len() && s[i] == ' ' && forall|j: int| 0 <= j < i ==> s[j] != ' '
}

/// The pieces `str::splitn(n, ' ')` cuts the text into, for `n >= 1`: the
/// text is cut at each of its first `n - 1` spaces, the last piece keeping
/// the rest.
pub open spec fn split_spaces(s: Seq<char>, n: nat) -> Seq<Seq<char>>
    decreases n,
{
    if n <= 1 || !has_space(s) {
        seq![s]
    } else {
        let i = first_space(s);
        seq![s.take(i)] + split_spaces(s.skip(i + 1), (n - 1) as nat)
    }
}

/// A text is cut into one to `n` pieces.
pub proof fn lemma_split_spaces_len(s: Seq<char>, n: nat)
    requires
        n >= 1,
    ensures
        1 <= split_spaces(s, n).len() <= n,
    decreases n,
{
    if n > 1 && has_space(s) {
        let i = first_space(s);
        lemma_split_spaces_len(s.skip(i + 1), (n - 1) as nat);
    }
}

/// Every character of the text is an ASCII digit.
pub open spec fn all_digits(s: Seq<char>) -> bool {
    forall|i: int| 0 <= i < s.len() ==> '0' <= #[trigger] s[i] <= '9'
}

/// The number the decimal digits of the text write.
pub open spec fn digits_value(s: Seq<char>) -> int
    decreases s.len(),
{
    if s.len() == 0 {
        0
    } else {
        digits_value(s.drop_last()) * 10 + (s.last() as int - '0' as int)
    }
}

/// The number `str::parse::<usize>` reads from the text, if any: as the
/// documentation of `from_str_radix` says, an optional `+` followed by one
/// or more digits, whose value fits in a `usize`.
pub open spec fn parsed_usize(s: Seq<char>) -> Option<usize> {
    let d = if s.len() > 0 && s[0] == '+' { s.skip(1) } else { s };
    if d.len() > 0 && all_digits(d) && digits_value(d) <= usize::MAX {
        Some(digits_value(d) as usize)
    } else {
        None
    }
}

/// The text as the `Debug` format of a string shows it (quoted, escaped).
pub uninterp spec fn debug_quoted(s: Seq<char>) -> Seq<char>;

/// `str::trim` of std: as its documentation says, the text without its
/// leading and trailing White_Space characters (see [`trimmed`]).
#[verifier::external_body]
fn trim_text(s: &str) -> (r: String)
    ensures
        r@ == trimmed(s@),
{
    s.trim().to_string()
}

/// `str::splitn(5, ' ')` of std, collected: as its documentation says, the
/// text cut at its first four spaces, the last piece keeping the rest (see
/// [`split_spaces`]).
#[verifier::external_body]
fn split_text(s: &str) -> (r: Vec<String>)
    ensures
        r.deep_view() == split_spaces(s@, 5),
{
    s.splitn(5, ' ').map(|p| p.to_string()).collect()
}

/// `str::parse::<usize>` of std, with the error dropped (see
/// [`parsed_usize`]).
#[verifier::external_body]
fn parse_usize(s: &str) -> (r: Option<usize>)
    ensures
        r == parsed_usize(s@),
{
    s.parse::<usize>().ok()
}

/// The `Debug` format of a string; the result is named by [`debug_quoted`].
#[verifier::external_body]
fn debug_text(s: &str) -> (r: String)
    ensures
        r@ == debug_quoted(s@),
{
    format!("{:?}", s)
}

/// A request a client's command asks the server for.
pub enum ClientRequest {
    Join(Join),
    Create(Create),
    StartGame(StartGame),
    Action(Action),
}

/// What a session does with one text message: forward a request to the
/// server, answer the client, or stop on a malformed command.
pub struct SessionStep {
    pub request: Option<ClientRequest>,
    pub reply: Option<String>,
    pub fault: Option<String>,
}

pub open spec fn opt_part(v: Seq<Seq<char>>, i: int) -> Option<Seq<char>> {
    if i < v.len() {
        Some(v[i])
    } else {
        None
    }
}

pub open spec fn opt_string_view(s: Option<String>) -> Option<Seq<char>> {
    match s {
        Some(x) => Some(x@),
        None => None,
    }
}

/// `step` is what the session does with the command text `text` of client
/// `client`.
pub open spec fn command_step(client: u128, text: Seq<char>, step: SessionStep) -> bool {
    let m = trimmed(text);
    let v = split_spaces(m, 5);
    if !(m.len() > 0 && m[0] == '/') {
        step.request is None && step.reply is None && step.fault is None
    } else if v[0] == "/join_lobby"@ {
        if v.len() == 3 {
            &&& step.reply is None && step.fault is None
            &&& step.request matches Some(ClientRequest::Join(j)) && j.room_code@ == v[1] && j.client_uuid == client
                && j.client_name@ == v[2]
        } else {
            &&& step.request is None && step.fault is None
            &&& step.reply matches Some(r) && r@ == "Could not join lobby: game UUID and player name required."@
        }
    } else if v[0] == "/create_lobby"@ {
        if v.len() == 3 {
            match parsed_usize(v[1]) {
                Some(n) => {
                    &&& step.fault is None
                    &&& step.request matches Some(ClientRequest::Create(c)) && c.number_of_players == n
                        && c.client_uuid == client && c.client_name@ == v[2]
                    &&& step.reply matches Some(r) && r@ == "Created lobby."@
                },
                None => step.request is None && step.reply is None && step.fault is Some,
            }
        } else {
            &&& step.request is None && step.fault is None
            &&& step.reply matches Some(r) && r@ == "Could not create lobby: number of players and player name required."@
        }
    } else if v[0] == "/start_game"@ {
        if v.len() >= 2 {
            &&& step.reply is None && step.fault is None
            &&& step.request matches Some(ClientRequest::StartGame(s)) && s.room_code@ == v[1]
        } else {
            step.request is None && step.reply is None && step.fault is Some
        }
    } else if v[0] == "/action"@ {
        if v.len() >= 2 {
            &&& step.reply is None && step.fault is None
            &&& step.request matches Some(ClientRequest::Action(a)) && a.client_uuid == client && a.action@ == v[1]
                && opt_string_view(a.target_name) == opt_part(v, 2)
                && opt_string_view(a.selected_card1) == opt_part(v, 3)
                && opt_string_view(a.selected_card2) == opt_part(v, 4)
        } else {
            step.request is None && step.reply is None && step.fault is Some
        }
    } else {
        &&& step.request is None && step.fault is None
        &&& step.reply matches Some(r) && r@ == "Unknown command: "@ + debug_quoted(m)
    }
}

fn part(v: &Vec<String>, i: usize) -> (r: Option<String>)
    ensures
        opt_string_view(r) == opt_part(v.deep_view(), i as int),
{
    if i < v.len() {
        Some(v[i].clone())
    } else {
        None
    }
}

fn nothing() -> (s: SessionStep)
    ensures
        s.request is None && s.reply is None && s.fault is None,
{
    SessionStep { request: None, reply: None, fault: None }
}

fn reply(text: &str) -> (s: SessionStep)
    ensures
        s.request is None && s.fault is None,
        s.reply matches Some(r) && r@ == text@,
{
    SessionStep { request: None, reply: Some(text.to_owned()), fault: None }
}

fn fault(text: &str) -> (s: SessionStep)
    ensures
        s.request is None && s.reply is None && s.fault is Some,
{
    SessionStep { request: None, reply: None, fault: Some(text.to_owned()) }
}

/// Reads a command that a client sent as text: `/join_lobby CODE NAME`,
/// `/create_lobby PLAYERS NAME`, `/start_game CODE` or
/// `/action ACTION [TARGET [CARD [CARD]]]`. Text that does not start with
/// `/` is ignored.
pub fn parse_command(client_uuid: u128, text: &str) -> (step: SessionStep)
    ensures
        command_step(client_uuid, text@, step),
{
    let m = trim_text(text);
    let ms = m.as_str();
    if ms.unicode_len() == 0 || ms.get_char(0) != '/' {
        return nothing();
    }
    let v = split_text(ms);
    proof { lemma_split_spaces_len(ms@, 5); }
    let ghost vv = v.deep_view();
    assert(vv[0] == v@[0]@);
    let head = v[0].as_str();
    if str_eq(head, "/join_lobby") {
        if v.len() == 3 {
            assert(vv[1] == v@[1]@ && vv[2] == v@[2]@);
            SessionStep {
                request: Some(ClientRequest::Join(Join {
                    room_code: v[1].clone(),
                    client_uuid,
                    client_name: v[2].clone(),
                })),
                reply: None,
                fault: None,
            }
        } else {
            reply("Could not join lobby: game UUID and player name required.")
        }
    } else if str_eq(head, "/create_lobby") {
        if v.len() == 3 {
            assert(vv[1] == v@[1]@ && vv[2] == v@[2]@);
            match parse_usize(v[1].as_str()) {
                Some(n) => SessionStep {
                    request: Some(ClientRequest::Create(Create {
                        number_of_players: n,
                        client_uuid,
                        client_name: v[2].clone(),
                    })),
                    reply: Some("Created lobby.".to_owned()),
                    fault: None,
                },
                None => fault("Invalid usize"),
            }
        } else {
            reply("Could not create lobby: number of players and player name required.")
        }
    } else if str_eq(head, "/start_game") {
        if v.len() >= 2 {
            assert(vv[1] == v@[1]@);
            SessionStep {
                request: Some(ClientRequest::StartGame(StartGame { room_code: v[1].clone() })),
                reply: None,
                fault: None,
            }
        } else {
            fault("a room code is required")
        }
    } else if str_eq(head, "/action") {
        if v.len() >= 2 {
            assert(vv[1] == v@[1]@);
            SessionStep {
                request: Some(ClientRequest::Action(Action {
                    client_uuid,
                    action: v[1].clone(),
                    target_name: part(&v, 2),
                    selected_card1: part(&v, 3),
                    selected_card2: part(&v, 4),
                })),
                reply: None,
                fault: None,
            }
        } else {
            fault("an action is required")
        }
    } else {
        let text = "Unknown command: ".to_owned().concat(debug_text(ms).as_str());
        SessionStep { request: None, reply: Some(text), fault: None }
    }
}

} // verus!
