//! Operator-facing rendering: decimal numbers, content addresses, and
//! the line printed for each delivered message.
use vstd::prelude::*;
use vstd::string::StrSliceExecFns;
use vstd::string::StringExecFns;

use crate::message::MessageAddress;

verus! {

/// The digit character for one decimal digit value.
pub open spec fn digit_char(d: int) -> char {
    if d == 0 {
        '0'
    } else if d == 1 {
        '1'
    } else if d == 2 {
        '2'
    } else if d == 3 {
        '3'
    } else if d == 4 {
        '4'
    } else if d == 5 {
        '5'
    } else if d == 6 {
        '6'
    } else if d == 7 {
        '7'
    } else if d == 8 {
        '8'
    } else {
        '9'
    }
}

/// The decimal rendering of a number, most significant digit first.
pub open spec fn dec_of(n: nat) -> Seq<char>
    decreases n,
{
    if n < 10 {
        seq![digit_char(n as int)]
    } else {
        dec_of(n / 10).push(digit_char((n % 10) as int))
    }
}

/// One decimal digit as a string slice.
fn digit_str(d: u64) -> (r: &'static str)
    requires
        d < 10,
    ensures
        r@ == seq![digit_char(d as int)],
{
    let r: &'static str = if d == 0 {
        "0"
    } else if d == 1 {
        "1"
    } else if d == 2 {
        "2"
    } else if d == 3 {
        "3"
    } else if d == 4 {
        "4"
    } else if d == 5 {
        "5"
    } else if d == 6 {
        "6"
    } else if d == 7 {
        "7"
    } else if d == 8 {
        "8"
    } else {
        "9"
    };
    proof {
        reveal_strlit("0");
        reveal_strlit("1");
        reveal_strlit("2");
        reveal_strlit("3");
        reveal_strlit("4");
        reveal_strlit("5");
        reveal_strlit("6");
        reveal_strlit("7");
        reveal_strlit("8");
        reveal_strlit("9");
        assert(r@ =~= seq![digit_char(d as int)]);
    }
    r
}

/// Render a number in decimal.
pub fn u64_to_dec(n: u64) -> (r: String)
    ensures
        r@ == dec_of(n as nat),
    decreases n,
{
    if n < 10 {
        String::from_str(digit_str(n))
    } else {
        let mut s = u64_to_dec(n / 10);
        s.append(digit_str(n % 10));
        proof {
            assert(s@ =~= dec_of(n as nat));
        }
        s
    }
}

/// The rendering of a content address: the three components of the
/// address, dash-separated.
pub open spec fn rendered_address(a: MessageAddress) -> Seq<char> {
    dec_of(a.digest as nat) + seq!['-'] + dec_of(a.author as nat) + seq!['-'] + dec_of(
        a.nonce as nat,
    )
}

/// Render a content address.
pub fn render_address(a: &MessageAddress) -> (r: String)
    ensures
        r@ == rendered_address(*a),
{
    proof {
        reveal_strlit("-");
    }
    let mut s = u64_to_dec(a.digest);
    s.append("-");
    let author = u64_to_dec(a.author);
    s.append(author.as_str());
    s.append("-");
    let nonce = u64_to_dec(a.nonce);
    s.append(nonce.as_str());
    proof {
        assert(s@ =~= rendered_address(*a));
    }
    s
}

/// The line shown to the operator for one delivered message.
pub open spec fn rendered_delivery(author: u64, content: Seq<char>, addr: MessageAddress) -> Seq<
    char,
> {
    "["@ + dec_of(author as nat) + "] said: \""@ + content + "\" (message id: "@
        + rendered_address(addr) + ")"@
}

/// Render the delivery line for a message, from its author, its content
/// decoded to text, and its content address.
pub fn render_delivery(author: u64, content: &String, addr: &MessageAddress) -> (r: String)
    ensures
        r@ == rendered_delivery(author, content@, *addr),
{
    let mut s = String::from_str("[");
    let author_s = u64_to_dec(author);
    s.append(author_s.as_str());
    s.append("] said: \"");
    s.append(content.as_str());
    s.append("\" (message id: ");
    let addr_s = render_address(addr);
    s.append(addr_s.as_str());
    s.append(")");
    proof {
        assert(s@ =~= rendered_delivery(author, content@, *addr));
    }
    s
}

/// The notice shown when the transport binds a listening address.
pub open spec fn rendered_listening(addr: Seq<char>) -> Seq<char> {
    "Listening on "@ + addr
}

/// Render the listening notice.
pub fn render_listening(addr: &String) -> (r: String)
    ensures
        r@ == rendered_listening(addr@),
{
    let mut s = String::from_str("Listening on ");
    s.append(addr.as_str());
    s
}

/// The notice shown when discovery adds a peer.
pub open spec fn rendered_peer_added(peer: u64, addr: Seq<char>) -> Seq<char> {
    "Peer "@ + dec_of(peer as nat) + " discovered at "@ + addr
}

/// Render the peer-added notice.
pub fn render_peer_added(peer: u64, addr: &String) -> (r: String)
    ensures
        r@ == rendered_peer_added(peer, addr@),
{
    let mut s = String::from_str("Peer ");
    let id = u64_to_dec(peer);
    s.append(id.as_str());
    s.append(" discovered at ");
    s.append(addr.as_str());
    proof {
        assert(s@ =~= rendered_peer_added(peer, addr@));
    }
    s
}

/// The notice shown when a peer's discovery lease lapses for good.
pub open spec fn rendered_peer_removed(peer: u64, addr: Seq<char>) -> Seq<char> {
    "Peer "@ + dec_of(peer as nat) + " expired at "@ + addr
}

/// Render the peer-removed notice.
pub fn render_peer_removed(peer: u64, addr: &String) -> (r: String)
    ensures
        r@ == rendered_peer_removed(peer, addr@),
{
    let mut s = String::from_str("Peer ");
    let id = u64_to_dec(peer);
    s.append(id.as_str());
    s.append(" expired at ");
    s.append(addr.as_str());
    proof {
        assert(s@ =~= rendered_peer_removed(peer, addr@));
    }
    s
}

/// The relay's notice when a peer joins.
pub open spec fn rendered_join(identity: Seq<char>) -> Seq<char> {
    "Peer "@ + identity + " joined the swarm"@
}

/// Render the relay's join notice.
pub fn render_join(identity: &String) -> (r: String)
    ensures
        r@ == rendered_join(identity@),
{
    let mut s = String::from_str("Peer ");
    s.append(identity.as_str());
    s.append(" joined the swarm");
    proof {
        assert(s@ =~= rendered_join(identity@));
    }
    s
}

/// The relay's notice when a peer disconnects.
pub open spec fn rendered_leave(identity: Seq<char>) -> Seq<char> {
    identity + " disconnected from the swarm"@
}

/// Render the relay's leave notice.
pub fn render_leave(identity: &String) -> (r: String)
    ensures
        r@ == rendered_leave(identity@),
{
    let mut s = identity.clone();
    s.append(" disconnected from the swarm");
    s
}

/// A relayed line, prefixed with the identity of its sender.
pub open spec fn rendered_relayed(identity: Seq<char>, msg: Seq<char>) -> Seq<char> {
    identity + ": "@ + msg
}

/// Render a relayed line.
pub fn render_relayed(identity: &String, msg: &String) -> (r: String)
    ensures
        r@ == rendered_relayed(identity@, msg@),
{
    let mut s = identity.clone();
    s.append(": ");
    s.append(msg.as_str());
    proof {
        assert(s@ =~= rendered_relayed(identity@, msg@));
    }
    s
}

/// What `String::from_utf8_lossy` decodes a byte sequence to: a pure
/// function of the bytes alone.
pub uninterp spec fn lossy_utf8(b: Seq<u8>) -> Seq<char>;

/// Relies on std's `String::from_utf8_lossy`: the decoding depends on
/// the bytes alone, and an empty input decodes to an empty string.
#[verifier::external_body]
pub(crate) fn utf8_lossy(b: &Vec<u8>) -> (r: String)
    ensures
        r@ == lossy_utf8(b@),
        b@.len() == 0 ==> r@.len() == 0,
{
    String::from_utf8_lossy(b).into_owned()
}

} // verus!
