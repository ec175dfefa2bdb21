//! Network-ACL rule evaluation: given an ordered set of entries and one candidate flow, does the
//! NACL allow or deny it, independent of any single [`super::Relation`].
//!
//! A security group is an allow-list with no ordering: every matching rule applies. A network ACL is
//! the opposite: an **ordered**, first-match-wins list of `allow`/`deny` rules, evaluated at the
//! subnet boundary regardless of what any attached security group says. Answering "is this actually
//! reachable" needs both, and this is the piece that reasons about the second one in isolation.
//!
//! **Deliberately literal, not CIDR-range arithmetic.** `source_cidr` is matched by exact string
//! equality against each rule's `cidr_block` / `ipv6_cidr_block`. A NACL rule scoped to some narrower
//! range isn't answering the same question a `0.0.0.0/0` query asks, so it is excluded rather than
//! approximated as a partial match.
//!
//! **No ICMP type/code matching.** Only protocol and port range are evaluated.
//!
//! **A query is a port *range*, matched by full containment.** A NACL rule matches only when its own
//! range fully contains the query's. A query answered only by *several* NACL rules together, each
//! covering part of the range, is not detected as a match.

use vstd::prelude::*;

use crate::diff::rules::{get_number, number_at};
use crate::json::{jsons, value_view, Json, JsonValue};
use crate::text::same;

verus! {

/// The outcome of evaluating one candidate flow against a NACL's ordered entries.
#[derive(Debug, Clone, Copy, PartialEq, Eq, Structural)]
pub enum Verdict {
    Allow,
    /// Either an explicit `deny` rule matched, or nothing did: AWS treats unmatched traffic as
    /// denied at the subnet boundary, and so does this.
    Deny,
}

/// A candidate flow.
pub struct Flow {
    pub source_cidr: Seq<char>,
    /// The protocol number, `-1` for all of them.
    pub protocol: Seq<char>,
    pub port_from: int,
    pub port_to: int,
}

/// The text that an entry has under `key`, empty when it has none.
pub open spec fn text_or_empty(entry: Json, key: Seq<char>) -> Seq<char> {
    match entry.get(key) {
        Some(Json::Text(text)) => text,
        _ => Seq::empty(),
    }
}

/// The entry is about this source, literally.
pub open spec fn source_matches(entry: Json, source_cidr: Seq<char>) -> bool {
    text_or_empty(entry, "cidr_block"@) == source_cidr || text_or_empty(entry, "ipv6_cidr_block"@)
        == source_cidr
}

/// The entry is about this protocol. A query for all protocols is only answered by an entry that is
/// itself unrestricted.
pub open spec fn protocol_matches(entry: Json, protocol: Seq<char>) -> bool {
    text_or_empty(entry, "protocol"@) == "-1"@ || text_or_empty(entry, "protocol"@) == protocol
}

/// The entry is about all of these ports. An entry for all protocols carries no port range.
pub open spec fn ports_match(entry: Json, port_from: int, port_to: int) -> bool {
    entry.get("protocol"@) == Some(Json::Text("-1"@)) || (number_at(entry, "from_port"@)
        <= port_from && port_to <= number_at(entry, "to_port"@))
}

/// The number of an entry and what it does, when it has both.
pub open spec fn numbered(entry: Json) -> Option<(int, Seq<char>)> {
    match (entry.get("rule_no"@), entry.get("action"@)) {
        (Some(number), Some(Json::Text(action))) => match number.signed() {
            Some(n) => Some((n, action)),
            None => None,
        },
        _ => None,
    }
}

/// The entry decides on the flow unless an earlier one does.
pub open spec fn applies(entry: Json, flow: Flow) -> bool {
    source_matches(entry, flow.source_cidr) && protocol_matches(entry, flow.protocol)
        && ports_match(entry, flow.port_from, flow.port_to) && numbered(entry) is Some
}

/// The entry at `i` is the first that applies: none that applies has a smaller number, and none
/// before it the same.
pub open spec fn decides(entries: Seq<Json>, flow: Flow, i: int) -> bool {
    &&& 0 <= i < entries.len()
    &&& applies(entries[i], flow)
    &&& forall|j: int|
        0 <= j < entries.len() && applies(#[trigger] entries[j], flow) ==> {
            let own = (numbered(entries[i])->0).0;
            let other = (numbered(entries[j])->0).0;
            own < other || (own == other && i <= j)
        }
}

/// The flow is allowed: the first entry that applies allows it.
pub open spec fn allows(entries: Seq<Json>, flow: Flow) -> bool {
    exists|i: int| #[trigger]
        decides(entries, flow, i) && (numbered(entries[i])->0).1 == "allow"@
}

fn get_text_or_empty<'a>(entry: &'a JsonValue, key: &str) -> (r: &'a str)
    ensures
        r@ == text_or_empty(entry@, key@),
{
    broadcast use value_view;
    match entry.get(key) {
        Some(JsonValue::String(text)) => text.as_str(),
        _ => {
            proof {
                reveal_strlit("");
                assert(""@ =~= Seq::empty());
            }
            ""
        },
    }
}

fn rule_source_matches(entry: &JsonValue, source_cidr: &str) -> (r: bool)
    ensures
        r == source_matches(entry@, source_cidr@),
{
    same(get_text_or_empty(entry, "cidr_block"), source_cidr) || same(
        get_text_or_empty(entry, "ipv6_cidr_block"),
        source_cidr,
    )
}

fn rule_protocol_matches(entry: &JsonValue, protocol: &str) -> (r: bool)
    ensures
        r == protocol_matches(entry@, protocol@),
{
    let rule_protocol = get_text_or_empty(entry, "protocol");
    same(rule_protocol, "-1") || same(rule_protocol, protocol)
}

fn rule_port_matches(entry: &JsonValue, port_from: i64, port_to: i64) -> (r: bool)
    ensures
        r == ports_match(entry@, port_from as int, port_to as int),
{
    broadcast use value_view;
    let unrestricted = match entry.get("protocol") {
        Some(JsonValue::String(protocol)) => same(protocol.as_str(), "-1"),
        _ => false,
    };
    unrestricted || (get_number(entry, "from_port") <= port_from && port_to <= get_number(
        entry,
        "to_port",
    ))
}

fn get_numbered(entry: &JsonValue) -> (r: Option<(i64, bool)>)
    ensures
        match r {
            Some((number, allow)) => numbered(entry@) matches Some((n, action)) && n == number
                && allow == (action == "allow"@),
            None => numbered(entry@) is None,
        },
{
    broadcast use value_view;
    let number: i64 = match entry.get("rule_no") {
        Some(number) => match number.as_i64() {
            Some(number) => number,
            None => return None,
        },
        None => return None,
    };
    match entry.get("action") {
        Some(JsonValue::String(action)) => Some((number, same(action.as_str(), "allow"))),
        _ => None,
    }
}

/// Evaluate `entries`, one NACL direction's `ingress` or `egress` array, against a flow from
/// `source_cidr` on `protocol` (the NACL API's own protocol-*number* string convention: `"-1"`,
/// `"6"` for tcp, `"17"` for udp, ...) spanning `port_from..=port_to` (equal for a single port).
///
/// Rules are considered in ascending `rule_no` order and the first match wins, mirroring AWS's own
/// evaluation order exactly. No match is implicit deny.
pub fn evaluate(
    entries: &[JsonValue],
    source_cidr: &str,
    protocol: &str,
    port_from: i64,
    port_to: i64,
) -> (r: Verdict)
    ensures
        r == if allows(
            jsons(entries@),
            Flow {
                source_cidr: source_cidr@,
                protocol: protocol@,
                port_from: port_from as int,
                port_to: port_to as int,
            },
        ) {
            Verdict::Allow
        } else {
            Verdict::Deny
        },
{
    let ghost flow = Flow {
        source_cidr: source_cidr@,
        protocol: protocol@,
        port_from: port_from as int,
        port_to: port_to as int,
    };
    let ghost list = jsons(entries@);
    let mut winner: Option<(i64, bool)> = None;
    let ghost mut at: int = 0;
    let mut i: usize = 0;
    while i < entries.len()
        invariant
            i <= entries.len(),
            list == jsons(entries@),
            flow == (Flow {
                source_cidr: source_cidr@,
                protocol: protocol@,
                port_from: port_from as int,
                port_to: port_to as int,
            }),
            match winner {
                Some((number, allow)) => {
                    &&& 0 <= at < i
                    &&& applies(list[at], flow)
                    &&& (numbered(list[at])->0).0 == number
                    &&& allow == ((numbered(list[at])->0).1 == "allow"@)
                    &&& forall|j: int|
                        0 <= j < i && applies(#[trigger] list[j], flow) ==> number < (numbered(
                            list[j],
                        )->0).0 || (number == (numbered(list[j])->0).0 && at <= j)
                },
                None => forall|j: int| 0 <= j < i ==> !applies(#[trigger] list[j], flow),
            },
        decreases entries.len() - i,
    {
        let entry = &entries[i];
        assert(list[i as int] == entry@);
        if rule_source_matches(entry, source_cidr) && rule_protocol_matches(entry, protocol)
            && rule_port_matches(entry, port_from, port_to) {
            if let Some((number, allow)) = get_numbered(entry) {
                let first = match winner {
                    Some((least, _)) => number < least,
                    None => true,
                };
                if first {
                    winner = Some((number, allow));
                    proof {
                        at = i as int;
                    }
                }
            }
        }
        i += 1;
    }
    match winner {
        Some((_, allow)) => {
            assert(decides(list, flow, at));
            if allow {
                Verdict::Allow
            } else {
                proof {
                    if allows(list, flow) {
                        let k = choose|k: int| #[trigger]
                            decides(list, flow, k) && (numbered(list[k])->0).1 == "allow"@;
                        assert(k == at);
                    }
                }
                Verdict::Deny
            }
        },
        None => Verdict::Deny,
    }
}

/// At most one entry decides on a flow.
pub proof fn one_entry_decides(entries: Seq<Json>, flow: Flow, i: int, j: int)
    requires
        decides(entries, flow, i),
        decides(entries, flow, j),
    ensures
        i == j,
{
}

/// A flow that no entry applies to is denied.
pub proof fn no_match_is_deny(entries: Seq<Json>, flow: Flow)
    requires
        forall|i: int| 0 <= i < entries.len() ==> !applies(#[trigger] entries[i], flow),
    ensures
        !allows(entries, flow),
{
}

/// An entry that denies, with a smaller number than every other that applies, denies the flow
/// whatever the others say; and one that allows allows it.
pub proof fn lowest_number_wins(entries: Seq<Json>, flow: Flow, i: int)
    requires
        0 <= i < entries.len(),
        applies(entries[i], flow),
        forall|j: int|
            0 <= j < entries.len() && j != i && applies(#[trigger] entries[j], flow) ==> (numbered(
                entries[i],
            )->0).0 < (numbered(entries[j])->0).0,
    ensures
        allows(entries, flow) <==> (numbered(entries[i])->0).1 == "allow"@,
{
    assert(decides(entries, flow, i));
    if allows(entries, flow) {
        let k = choose|k: int| #[trigger]
            decides(entries, flow, k) && (numbered(entries[k])->0).1 == "allow"@;
        assert(k == i);
    }
}

} // verus!
