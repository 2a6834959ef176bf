use vstd::prelude::*;

verus! {

/// States of the scanner for JSON number text.
pub const NUM_START: u8 = 0;
pub const NUM_MINUS: u8 = 1;
pub const NUM_ZERO: u8 = 2;
pub const NUM_INT: u8 = 3;
pub const NUM_DOT: u8 = 4;
pub const NUM_FRAC: u8 = 5;
pub const NUM_EXP: u8 = 6;
pub const NUM_EXP_SIGN: u8 = 7;
pub const NUM_EXP_DIGITS: u8 = 8;
pub const NUM_DEAD: u8 = 9;

pub open spec fn is_digit(c: char) -> bool {
    '0' <= c && c <= '9'
}

/// One step of the grammar of canonical JSON number text
/// `-? (0 | [1-9][0-9]*) (. [0-9]+)? (e [+-] [0-9]+)?`: JSON's number grammar
/// with the exponent written as the JSON parser hands it out, a lower-case
/// `e` and an explicit sign.
pub open spec fn num_step(state: u8, c: char) -> u8 {
    if state == NUM_START {
        if c == '-' { NUM_MINUS } else if c == '0' { NUM_ZERO } else if is_digit(c) { NUM_INT } else { NUM_DEAD }
    } else if state == NUM_MINUS {
        if c == '0' { NUM_ZERO } else if is_digit(c) { NUM_INT } else { NUM_DEAD }
    } else if state == NUM_ZERO || state == NUM_INT {
        if state == NUM_INT && is_digit(c) {
            NUM_INT
        } else if c == '.' {
            NUM_DOT
        } else if c == 'e' {
            NUM_EXP
        } else {
            NUM_DEAD
        }
    } else if state == NUM_DOT {
        if is_digit(c) { NUM_FRAC } else { NUM_DEAD }
    } else if state == NUM_FRAC {
        if is_digit(c) { NUM_FRAC } else if c == 'e' { NUM_EXP } else { NUM_DEAD }
    } else if state == NUM_EXP {
        if c == '+' || c == '-' { NUM_EXP_SIGN } else { NUM_DEAD }
    } else if state == NUM_EXP_SIGN || state == NUM_EXP_DIGITS {
        if is_digit(c) { NUM_EXP_DIGITS } else { NUM_DEAD }
    } else {
        NUM_DEAD
    }
}

/// The scanner state after reading all of `s`.
pub open spec fn num_state(s: Seq<char>) -> u8
    decreases s.len(),
{
    if s.len() == 0 {
        NUM_START
    } else {
        num_step(num_state(s.drop_last()), s.last())
    }
}

/// `s` is the canonical text of a JSON number.
pub open spec fn is_number_text(s: Seq<char>) -> bool {
    let st = num_state(s);
    st == NUM_ZERO || st == NUM_INT || st == NUM_FRAC || st == NUM_EXP_DIGITS
}

fn num_step_exec(state: u8, c: char) -> (r: u8)
    ensures
        r == num_step(state, c),
{
    let digit = '0' <= c && c <= '9';
    if state == NUM_START {
        if c == '-' { NUM_MINUS } else if c == '0' { NUM_ZERO } else if digit { NUM_INT } else { NUM_DEAD }
    } else if state == NUM_MINUS {
        if c == '0' { NUM_ZERO } else if digit { NUM_INT } else { NUM_DEAD }
    } else if state == NUM_ZERO || state == NUM_INT {
        if state == NUM_INT && digit {
            NUM_INT
        } else if c == '.' {
            NUM_DOT
        } else if c == 'e' {
            NUM_EXP
        } else {
            NUM_DEAD
        }
    } else if state == NUM_DOT {
        if digit { NUM_FRAC } else { NUM_DEAD }
    } else if state == NUM_FRAC {
        if digit { NUM_FRAC } else if c == 'e' { NUM_EXP } else { NUM_DEAD }
    } else if state == NUM_EXP {
        if c == '+' || c == '-' { NUM_EXP_SIGN } else { NUM_DEAD }
    } else if state == NUM_EXP_SIGN || state == NUM_EXP_DIGITS {
        if digit { NUM_EXP_DIGITS } else { NUM_DEAD }
    } else {
        NUM_DEAD
    }
}

/// Decides whether `s` is the canonical text of a JSON number.
pub fn number_text_ok(s: &str) -> (r: bool)
    ensures
        r == is_number_text(s@),
{
    let n = s.unicode_len();
    let mut state: u8 = NUM_START;
    let mut i: usize = 0;
    while i < n
        invariant
            n == s@.len(),
            i <= n,
            state == num_state(s@.take(i as int)),
        decreases n - i,
    {
        let c = s.get_char(i);
        assert(s@.take(i as int + 1).drop_last() =~= s@.take(i as int));
        state = num_step_exec(state, c);
        i = i + 1;
    }
    assert(s@.take(n as int) =~= s@);
    state == NUM_ZERO || state == NUM_INT || state == NUM_FRAC || state == NUM_EXP_DIGITS
}

/// A JSON number, kept as its canonical text so that it crosses the hub, and
/// the wire, unchanged.
#[derive(Debug, PartialEq)]
pub struct Number {
    text: String,
}

impl View for Number {
    type V = Seq<char>;

    closed spec fn view(&self) -> Seq<char> {
        self.text@
    }
}

impl Number {
    #[verifier::type_invariant]
    spec fn well_formed(&self) -> bool {
        is_number_text(self.text@)
    }

    /// The number written as `s`, if `s` is the canonical text of a JSON
    /// number (an exponent as `e+` or `e-` and digits).
    pub fn parse(s: &str) -> (r: Option<Number>)
        ensures
            r is Some <==> is_number_text(s@),
            r matches Some(n) ==> n@ == s@,
    {
        if number_text_ok(s) {
            Some(Number { text: s.to_owned() })
        } else {
            None
        }
    }

    /// The text of the number.
    pub fn as_str(&self) -> (r: &str)
        ensures
            r@ == self@,
            is_number_text(r@),
    {
        proof {
            use_type_invariant(self);
        }
        self.text.as_str()
    }

    pub fn copy_of(&self) -> (r: Number)
        ensures
            r@ == self@,
    {
        proof {
            use_type_invariant(self);
        }
        Number { text: self.text.clone() }
    }
}

impl Clone for Number {
    fn clone(&self) -> (r: Number)
        ensures
            r@ == self@,
    {
        self.copy_of()
    }
}

/// A message of the hub's wire protocol.
#[derive(Clone, Debug, PartialEq)]
pub enum WsMessage {
    Calculation { operation: String, result: Number, timestamp: String },
    Chat { user: String, message: String, timestamp: String },
    System { message: String, timestamp: String },
    Ping,
    Pong,
}

/// The mathematical value of a message.
pub enum MessageView {
    Calculation { operation: Seq<char>, result: Seq<char>, timestamp: Seq<char> },
    Chat { user: Seq<char>, message: Seq<char>, timestamp: Seq<char> },
    System { message: Seq<char>, timestamp: Seq<char> },
    Ping,
    Pong,
}

impl View for WsMessage {
    type V = MessageView;

    open spec fn view(&self) -> MessageView {
        match self {
            WsMessage::Calculation { operation, result, timestamp } => MessageView::Calculation {
                operation: operation@,
                result: result@,
                timestamp: timestamp@,
            },
            WsMessage::Chat { user, message, timestamp } => MessageView::Chat {
                user: user@,
                message: message@,
                timestamp: timestamp@,
            },
            WsMessage::System { message, timestamp } => MessageView::System {
                message: message@,
                timestamp: timestamp@,
            },
            WsMessage::Ping => MessageView::Ping,
            WsMessage::Pong => MessageView::Pong,
        }
    }
}

/// The text of the welcome message greeting `client`.
pub open spec fn welcome_text(client: Seq<char>) -> Seq<char> {
    "Welcome! You are connected as "@ + client
}

impl WsMessage {
    /// A copy of this message, equal in every field.
    pub fn copy_of(&self) -> (r: WsMessage)
        ensures
            r@ == self@,
    {
        match self {
            WsMessage::Calculation { operation, result, timestamp } => WsMessage::Calculation {
                operation: operation.clone(),
                result: result.copy_of(),
                timestamp: timestamp.clone(),
            },
            WsMessage::Chat { user, message, timestamp } => WsMessage::Chat {
                user: user.clone(),
                message: message.clone(),
                timestamp: timestamp.clone(),
            },
            WsMessage::System { message, timestamp } => WsMessage::System {
                message: message.clone(),
                timestamp: timestamp.clone(),
            },
            WsMessage::Ping => WsMessage::Ping,
            WsMessage::Pong => WsMessage::Pong,
        }
    }

    /// The system message that greets a newly connected client by its id.
    pub fn welcome(client: &str, timestamp: &str) -> (r: WsMessage)
        ensures
            r@ == (MessageView::System { message: welcome_text(client@), timestamp: timestamp@ }),
    {
        let mut text = String::from_str("Welcome! You are connected as ");
        proof {
            reveal_strlit("Welcome! You are connected as ");
        }
        text.append(client);
        WsMessage::System { message: text, timestamp: timestamp.to_owned() }
    }

    /// The chat message that stands for raw text a client sent that did not
    /// decode: attributed to that client, carrying the text unchanged.
    pub fn fallback_chat(client: &str, text: &str, timestamp: &str) -> (r: WsMessage)
        ensures
            r@ == (MessageView::Chat { user: client@, message: text@, timestamp: timestamp@ }),
    {
        WsMessage::Chat { user: client.to_owned(), message: text.to_owned(), timestamp: timestamp.to_owned() }
    }
}

} // verus!
