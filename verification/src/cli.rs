//! Command-line mode selection for the line-relay utility: decide from
//! the process arguments whether to dial a listening peer or listen for
//! peers, and at which address. The I/O each mode performs lives with
//! the runtime; the decision is taken here.
use vstd::prelude::*;
use vstd::string::StrSliceExecFns;
use vstd::string::StringExecFns;
use vstd::utf8::encode_utf8;

verus! {

/// ASCII lowercase of one byte.
pub open spec fn lower_byte(b: u8) -> u8 {
    if 65 <= b <= 90 {
        (b + 32) as u8
    } else {
        b
    }
}

/// Byte sequences equal up to ASCII case.
pub open spec fn eq_ignore_case(a: Seq<u8>, b: Seq<u8>) -> bool {
    a.len() == b.len() && forall|i: int| 0 <= i < a.len() ==> lower_byte(a[i]) == lower_byte(b[i])
}

/// Compare two byte vectors up to ASCII case.
fn bytes_eq_ignore_case(a: &Vec<u8>, b: &Vec<u8>) -> (r: bool)
    ensures
        r == eq_ignore_case(a@, b@),
{
    if a.len() != b.len() {
        return false;
    }
    let mut i: usize = 0;
    while i < a.len()
        invariant
            a@.len() == b@.len(),
            i <= a@.len(),
            forall|k: int| 0 <= k < i ==> lower_byte(a@[k]) == lower_byte(b@[k]),
        decreases a@.len() - i,
    {
        let x = a[i];
        let y = b[i];
        let xl = if 65 <= x && x <= 90 {
            x + 32
        } else {
            x
        };
        let yl = if 65 <= y && y <= 90 {
            y + 32
        } else {
            y
        };
        if xl != yl {
            return false;
        }
        i = i + 1;
    }
    true
}

/// Which role this process takes.
#[derive(Debug)]
pub enum CommandSwitch {
    /// open a connection to a listening peer
    Dial(String),
    /// listen for connections from other peers
    Listen(String),
}

/// Why the arguments could not be understood.
#[derive(Clone, Copy, Debug, PartialEq, Eq, Structural)]
pub enum ArgsError {
    /// Not exactly a mode and an address after the program name.
    WrongCount,
    /// The mode word is neither `dial` nor `listen`, in any case.
    UnknownMode,
}

impl ArgsError {
    /// The operator-facing description of the error.
    pub fn describe(&self) -> (r: String)
        ensures
            (*self is WrongCount ==> r@ == "missing or invalid number of arguments"@),
            (*self is UnknownMode ==> r@ == "invalid or unsupported mode"@),
    {
        match self {
            ArgsError::WrongCount => String::from_str("missing or invalid number of arguments"),
            ArgsError::UnknownMode => String::from_str("invalid or unsupported mode"),
        }
    }
}

impl CommandSwitch {
    /// Decide the mode from the process arguments (program name first):
    /// exactly one mode word and one address are accepted, with the
    /// mode word `dial` or `listen` in any ASCII case.
    pub fn parse_from_args(args: Vec<String>) -> (r: Result<CommandSwitch, ArgsError>)
        ensures
            (match r {
                Ok(cmd) => args@.len() == 3 && (match cmd {
                    CommandSwitch::Dial(a) => eq_ignore_case(
                        encode_utf8(args@[1]@),
                        encode_utf8("dial"@),
                    ) && a == args@[2],
                    CommandSwitch::Listen(a) => eq_ignore_case(
                        encode_utf8(args@[1]@),
                        encode_utf8("listen"@),
                    ) && a == args@[2],
                }),
                Err(ArgsError::WrongCount) => args@.len() != 3,
                Err(ArgsError::UnknownMode) => args@.len() == 3 && !eq_ignore_case(
                    encode_utf8(args@[1]@),
                    encode_utf8("dial"@),
                ) && !eq_ignore_case(encode_utf8(args@[1]@), encode_utf8("listen"@)),
            }),
    {
        if args.len() != 3 {
            return Err(ArgsError::WrongCount);
        }
        let mode = args[1].as_str().as_bytes_vec();
        let addr = args[2].clone();
        let dial_word = "dial".as_bytes_vec();
        let listen_word = "listen".as_bytes_vec();
        if bytes_eq_ignore_case(&mode, &dial_word) {
            Ok(CommandSwitch::Dial(addr))
        } else if bytes_eq_ignore_case(&mode, &listen_word) {
            Ok(CommandSwitch::Listen(addr))
        } else {
            Err(ArgsError::UnknownMode)
        }
    }
}

} // verus!
