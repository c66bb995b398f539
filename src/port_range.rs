use vstd::prelude::*;

use crate::text::{parse_u16, parse_u16_spec, push_decimal, decimal_text, lemma_decimal_text};

verus! {

/// Why a port range text was rejected, as plain values.
pub enum PortRangeFault {
    MissingSeparator,
    EmptyPortValue(Seq<char>),
    InvalidBeginPort(Seq<char>),
    InvalidEndPort(Seq<char>),
    BeginAfterEnd(u16, u16),
}

/// Why a port range text `<begin_port>:<end_port>` was rejected.
#[derive(Debug)]
pub enum PortRangeError {
    /// The text holds no `:`.
    MissingSeparator,
    /// One side of the `:` is empty; holds the whole text.
    EmptyPortValue { port_range: String },
    /// The text before the `:` is no port number; holds that text.
    InvalidBeginPort { text: String },
    /// The text after the `:` is no port number; holds that text.
    InvalidEndPort { text: String },
    /// The begin port is above the end port.
    BeginAfterEnd { begin: u16, end: u16 },
}

impl View for PortRangeError {
    type V = PortRangeFault;

    open spec fn view(&self) -> PortRangeFault {
        match self {
            PortRangeError::MissingSeparator => PortRangeFault::MissingSeparator,
            PortRangeError::EmptyPortValue { port_range } => PortRangeFault::EmptyPortValue(
                port_range@,
            ),
            PortRangeError::InvalidBeginPort { text } => PortRangeFault::InvalidBeginPort(text@),
            PortRangeError::InvalidEndPort { text } => PortRangeFault::InvalidEndPort(text@),
            PortRangeError::BeginAfterEnd { begin, end } => PortRangeFault::BeginAfterEnd(
                *begin,
                *end,
            ),
        }
    }
}

impl PortRangeFault {
    /// The message that describes the fault.
    pub open spec fn message(self) -> Seq<char> {
        match self {
            PortRangeFault::MissingSeparator =>
                "Port ranges should be seperated in following format: [begin_port]:[end_port]"@,
            PortRangeFault::EmptyPortValue(s) => "Empty port values given in the port range "@ + s,
            PortRangeFault::InvalidBeginPort(s) => "Unable to parse the begining of port range: "@
                + s,
            PortRangeFault::InvalidEndPort(s) => "Unable to parse the end of port range: "@ + s,
            PortRangeFault::BeginAfterEnd(b, e) => "Begin port "@ + decimal_text(b as nat)
                + " is bigger than the end port "@ + decimal_text(e as nat),
        }
    }
}

impl PortRangeError {
    /// The message that describes the error.
    pub fn to_string(&self) -> (r: String)
        ensures
            r@ == self@.message(),
    {
        match self {
            PortRangeError::MissingSeparator => String::from_str(
                "Port ranges should be seperated in following format: [begin_port]:[end_port]",
            ),
            PortRangeError::EmptyPortValue { port_range } => {
                let mut m = String::from_str("Empty port values given in the port range ");
                m.append(port_range.as_str());
                m
            },
            PortRangeError::InvalidBeginPort { text } => {
                let mut m = String::from_str("Unable to parse the begining of port range: ");
                m.append(text.as_str());
                m
            },
            PortRangeError::InvalidEndPort { text } => {
                let mut m = String::from_str("Unable to parse the end of port range: ");
                m.append(text.as_str());
                m
            },
            PortRangeError::BeginAfterEnd { begin, end } => {
                let mut m = String::from_str("Begin port ");
                push_decimal(&mut m, *begin as u64);
                m.append(" is bigger than the end port ");
                push_decimal(&mut m, *end as u64);
                m
            },
        }
    }
}

/// Whether `i` is the position of the first `c` in `s`.
pub open spec fn is_first_index(s: Seq<char>, c: char, i: int) -> bool {
    &&& 0 <= i < s.len()
    &&& s[i] == c
    &&& forall|j: int| 0 <= j < i ==> s[j] != c
}

/// The position of the first `c` in `s`, where `s` holds one.
pub open spec fn first_index(s: Seq<char>, c: char) -> int {
    choose|i: int| is_first_index(s, c, i)
}

/// What reading the port range text `s` gives: the pair of ports written
/// as `<begin_port>:<end_port>` around the first `:`, or the first fault
/// met, checked in this order: no `:`, an empty side, a begin that is no
/// port number, an end that is no port number, a begin above the end.
pub open spec fn port_range_spec(s: Seq<char>) -> Result<(u16, u16), PortRangeFault> {
    if !s.contains(':') {
        Err(PortRangeFault::MissingSeparator)
    } else {
        let i = first_index(s, ':');
        let b = s.take(i);
        let e = s.skip(i + 1);
        if b.len() == 0 || e.len() == 0 {
            Err(PortRangeFault::EmptyPortValue(s))
        } else if parse_u16_spec(b) is None {
            Err(PortRangeFault::InvalidBeginPort(b))
        } else if parse_u16_spec(e) is None {
            Err(PortRangeFault::InvalidEndPort(e))
        } else if parse_u16_spec(b)->0 > parse_u16_spec(e)->0 {
            Err(PortRangeFault::BeginAfterEnd(parse_u16_spec(b)->0, parse_u16_spec(e)->0))
        } else {
            Ok((parse_u16_spec(b)->0, parse_u16_spec(e)->0))
        }
    }
}

/// The view of a port range result: the ports, or the fault.
pub open spec fn range_result_view(r: Result<(u16, u16), PortRangeError>) -> Result<
    (u16, u16),
    PortRangeFault,
> {
    match r {
        Ok(p) => Ok(p),
        Err(e) => Err(e@),
    }
}

proof fn lemma_first_index_unique(s: Seq<char>, c: char, i: int)
    requires
        is_first_index(s, c, i),
    ensures
        first_index(s, c) == i,
{
    let k = first_index(s, c);
    assert(is_first_index(s, c, k));
    if k < i {
        assert(s[k] != c);
    } else if i < k {
        assert(s[i] != c);
    }
}

/// A text with no `:` is refused for its missing separator.
pub proof fn lemma_range_without_separator(s: Seq<char>)
    requires
        !s.contains(':'),
    ensures
        port_range_spec(s) == Err::<(u16, u16), _>(PortRangeFault::MissingSeparator),
{
}

/// How a text `a:b`, with no `:` in `a`, is read: an empty side, a side
/// that is no port number, and a begin above the end each give their own
/// fault; otherwise the two ports come back.
pub proof fn lemma_range_sides(a: Seq<char>, b: Seq<char>)
    requires
        !a.contains(':'),
    ensures
        ({
            let s = a + seq![':'] + b;
            &&& a.len() == 0 || b.len() == 0 ==> port_range_spec(s) == Err::<(u16, u16), _>(
                PortRangeFault::EmptyPortValue(s),
            )
            &&& a.len() > 0 && b.len() > 0 && parse_u16_spec(a) is None ==> port_range_spec(s)
                == Err::<(u16, u16), _>(PortRangeFault::InvalidBeginPort(a))
            &&& a.len() > 0 && b.len() > 0 && parse_u16_spec(a) is Some && parse_u16_spec(b) is None
                ==> port_range_spec(s) == Err::<(u16, u16), _>(PortRangeFault::InvalidEndPort(b))
            &&& a.len() > 0 && b.len() > 0 && parse_u16_spec(a) is Some && parse_u16_spec(b) is Some
                ==> port_range_spec(s) == if parse_u16_spec(a)->0 > parse_u16_spec(b)->0 {
                Err(PortRangeFault::BeginAfterEnd(parse_u16_spec(a)->0, parse_u16_spec(b)->0))
            } else {
                Ok((parse_u16_spec(a)->0, parse_u16_spec(b)->0))
            }
        }),
{
    let s = a + seq![':'] + b;
    assert(s[a.len() as int] == ':');
    assert(s.contains(':'));
    assert forall|j: int| 0 <= j < a.len() implies s[j] != ':' by {
        assert(s[j] == a[j]);
    }
    lemma_first_index_unique(s, ':', a.len() as int);
    assert(s.take(a.len() as int) =~= a);
    assert(s.skip(a.len() as int + 1) =~= b);
}

/// A range written as the text of `begin`, a `:` and the text of `end`,
/// with `begin <= end`, reads back as `(begin, end)`.
pub proof fn lemma_well_formed_range(begin: u16, end: u16)
    requires
        begin <= end,
    ensures
        port_range_spec(decimal_text(begin as nat) + seq![':'] + decimal_text(end as nat)) == Ok::<
            (u16, u16),
            PortRangeFault,
        >((begin, end)),
{
    lemma_decimal_text(begin as nat);
    lemma_decimal_text(end as nat);
    lemma_parse_decimal_text(begin);
    lemma_parse_decimal_text(end);
    lemma_range_sides(decimal_text(begin as nat), decimal_text(end as nat));
}

proof fn lemma_parse_decimal_text(n: u16)
    ensures
        parse_u16_spec(decimal_text(n as nat)) == Some(n),
{
    lemma_decimal_text(n as nat);
}

/// The kind of a fault, numbered in the order in which the checks run.
pub open spec fn fault_kind(f: PortRangeFault) -> int {
    match f {
        PortRangeFault::MissingSeparator => 0,
        PortRangeFault::EmptyPortValue(_) => 1,
        PortRangeFault::InvalidBeginPort(_) => 2,
        PortRangeFault::InvalidEndPort(_) => 3,
        PortRangeFault::BeginAfterEnd(_, _) => 4,
    }
}

proof fn lemma_message_marks(f: PortRangeFault)
    ensures
        f.message().len() > 20,
        f.message()[0] == (if fault_kind(f) == 0 {
            'P'
        } else if fault_kind(f) == 1 {
            'E'
        } else if fault_kind(f) == 4 {
            'B'
        } else {
            'U'
        }),
        fault_kind(f) == 2 ==> f.message()[20] == 'b',
        fault_kind(f) == 3 ==> f.message()[20] == 'e',
{
    reveal_strlit("Port ranges should be seperated in following format: [begin_port]:[end_port]");
    reveal_strlit("Empty port values given in the port range ");
    reveal_strlit("Unable to parse the begining of port range: ");
    reveal_strlit("Unable to parse the end of port range: ");
    reveal_strlit("Begin port ");
    reveal_strlit(" is bigger than the end port ");
    match f {
        PortRangeFault::EmptyPortValue(s) => {
            let lit = "Empty port values given in the port range "@;
            assert((lit + s)[0] == lit[0]);
        },
        PortRangeFault::InvalidBeginPort(s) => {
            let lit = "Unable to parse the begining of port range: "@;
            assert((lit + s)[0] == lit[0]);
            assert((lit + s)[20] == lit[20]);
        },
        PortRangeFault::InvalidEndPort(s) => {
            let lit = "Unable to parse the end of port range: "@;
            assert((lit + s)[0] == lit[0]);
            assert((lit + s)[20] == lit[20]);
        },
        PortRangeFault::BeginAfterEnd(b, e) => {
            let lit = "Begin port "@;
            let rest = decimal_text(b as nat) + " is bigger than the end port "@ + decimal_text(
                e as nat,
            );
            assert(f.message() =~= lit + rest);
            assert((lit + rest)[0] == lit[0]);
        },
        PortRangeFault::MissingSeparator => {},
    }
}

/// Faults of different kinds have different messages, so each malformed
/// form of a range text is told apart by its message.
pub proof fn lemma_fault_messages_differ(f: PortRangeFault, g: PortRangeFault)
    requires
        fault_kind(f) != fault_kind(g),
    ensures
        f.message() != g.message(),
{
    lemma_message_marks(f);
    lemma_message_marks(g);
    if f.message() == g.message() {
        assert(f.message()[0] == g.message()[0]);
        assert(f.message()[20] == g.message()[20]);
    }
}

/// Reads a port range written `<begin_port>:<end_port>`.
pub fn parse_port_ranges(port_range: String) -> (r: Result<(u16, u16), PortRangeError>)
    ensures
        range_result_view(r) == port_range_spec(port_range@),
{
    let s = port_range.as_str();
    let len = s.unicode_len();
    let mut i: usize = 0;
    let mut found = false;
    while i < len && !found
        invariant
            i <= len,
            len == s@.len(),
            forall|j: int| 0 <= j < i ==> s@[j] != ':',
            found ==> i < len && s@[i as int] == ':',
        decreases len - i, if found { 0int } else { 1int },
    {
        if s.get_char(i) == ':' {
            found = true;
        } else {
            i = i + 1;
        }
    }
    if !found {
        assert(!s@.contains(':'));
        return Err(PortRangeError::MissingSeparator);
    }
    proof {
        lemma_first_index_unique(s@, ':', i as int);
    }
    let begin_str = s.substring_char(0, i);
    let end_str = s.substring_char(i + 1, len);
    assert(begin_str@ =~= s@.take(i as int));
    assert(end_str@ =~= s@.skip(i + 1));
    if i == 0 || i + 1 == len {
        return Err(PortRangeError::EmptyPortValue { port_range: String::from_str(s) });
    }
    let begin_port = match parse_u16(begin_str) {
        Some(p) => p,
        None => {
            return Err(PortRangeError::InvalidBeginPort { text: String::from_str(begin_str) });
        },
    };
    let end_port = match parse_u16(end_str) {
        Some(p) => p,
        None => {
            return Err(PortRangeError::InvalidEndPort { text: String::from_str(end_str) });
        },
    };
    if begin_port > end_port {
        return Err(PortRangeError::BeginAfterEnd { begin: begin_port, end: end_port });
    }
    Ok((begin_port, end_port))
}

} // verus!
