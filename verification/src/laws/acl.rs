//! What a network ACL lets through.

use vstd::prelude::*;

use crate::diff::rules::number_at;
use crate::diff::semantic::nacl::{allows, applies, decides, numbered, ports_match, Flow};
use crate::json::{Json, Numeral};
use crate::laws::{counts, says};

verus! {

/// An entry lets through, or keeps out, traffic on `port`: it is for all protocols, or the port is in
/// its range.
pub open spec fn covers(entry: Json, port: int) -> bool {
    says(entry, "protocol"@, "-1"@) || forall|from: int, to: int|
        #![trigger counts(entry, "from_port"@, from), counts(entry, "to_port"@, to)]
        counts(entry, "from_port"@, from) && counts(entry, "to_port"@, to) ==> from <= port <= to
}

/// An entry is about a flow: about its source, about its protocol or all of them, and about every
/// single port of it.
pub open spec fn is_about(entry: Json, flow: Flow) -> bool {
    &&& says(entry, "cidr_block"@, flow.source_cidr) || says(
        entry,
        "ipv6_cidr_block"@,
        flow.source_cidr,
    )
    &&& says(entry, "protocol"@, "-1"@) || says(entry, "protocol"@, flow.protocol)
    &&& forall|port: int| flow.port_from <= port <= flow.port_to ==> #[trigger] covers(entry, port)
}

/// An entry has the number `number`, and says what to do.
pub open spec fn is_numbered(entry: Json, number: int) -> bool {
    &&& entry.get("rule_no"@) == Some(Json::Number(Numeral::Int(number)))
    &&& i64::MIN <= number <= i64::MAX
    &&& entry.get("action"@) matches Some(Json::Text(_))
}

/// The entry at `i`, with the number `number`, is the one that the flow meets first: of those about
/// the flow none has a smaller number, and none before it the same.
pub open spec fn is_met_first(entries: Seq<Json>, flow: Flow, i: int, number: int) -> bool {
    &&& 0 <= i < entries.len()
    &&& is_about(entries[i], flow)
    &&& is_numbered(entries[i], number)
    &&& forall|j: int, other: int|
        0 <= j < entries.len() && is_about(entries[j], flow) && #[trigger] is_numbered(
            entries[j],
            other,
        ) ==> number < other || (number == other && i <= j)
}

proof fn ports_in_words(entry: Json, flow: Flow)
    requires
        flow.port_from <= flow.port_to,
    ensures
        ports_match(entry, flow.port_from, flow.port_to) == (forall|port: int|
            flow.port_from <= port <= flow.port_to ==> #[trigger] covers(entry, port)),
{
    let from = number_at(entry, "from_port"@);
    let to = number_at(entry, "to_port"@);
    assert(counts(entry, "from_port"@, from));
    assert(counts(entry, "to_port"@, to));
    if forall|port: int| flow.port_from <= port <= flow.port_to ==> #[trigger] covers(entry, port) {
        assert(covers(entry, flow.port_from));
        assert(covers(entry, flow.port_to));
    }
}

proof fn application_in_words(entry: Json, flow: Flow)
    requires
        flow.source_cidr.len() > 0,
        flow.protocol.len() > 0,
        flow.port_from <= flow.port_to,
    ensures
        applies(entry, flow) <==> is_about(entry, flow) && exists|number: int|
            is_numbered(entry, number),
        applies(entry, flow) ==> is_numbered(entry, (numbered(entry)->0).0),
{
    ports_in_words(entry, flow);
    reveal_strlit("-1");
    assert("-1"@.len() == 2);
    if applies(entry, flow) {
        assert(is_numbered(entry, (numbered(entry)->0).0));
    }
}

/// A network ACL lets a flow through exactly when the entry that the flow meets first says `allow`:
/// entries are met in the order of their numbers, an entry counts only when it is about the source,
/// the protocol and every port of the flow, and where there is none the flow is kept out.
pub proof fn the_first_entry_decides(entries: Seq<Json>, flow: Flow)
    requires
        flow.source_cidr.len() > 0,
        flow.protocol.len() > 0,
        flow.port_from <= flow.port_to,
    ensures
        allows(entries, flow) <==> exists|i: int, number: int| #[trigger]
            is_met_first(entries, flow, i, number) && says(entries[i], "action"@, "allow"@),
{
    assert forall|j: int| 0 <= j < entries.len() implies {
        &&& (applies(#[trigger] entries[j], flow) <==> is_about(entries[j], flow) && exists|
            number: int,
        |
            is_numbered(entries[j], number))
        &&& (applies(entries[j], flow) ==> is_numbered(entries[j], (numbered(entries[j])->0).0))
    } by {
        application_in_words(entries[j], flow);
    }
    if allows(entries, flow) {
        let i = choose|i: int| #[trigger]
            decides(entries, flow, i) && (numbered(entries[i])->0).1 == "allow"@;
        let number = (numbered(entries[i])->0).0;
        assert forall|j: int, other: int|
            0 <= j < entries.len() && is_about(entries[j], flow) && #[trigger] is_numbered(
                entries[j],
                other,
            ) implies number < other || (number == other && i <= j) by {
            assert(applies(entries[j], flow));
        }
        assert(is_met_first(entries, flow, i, number));
    }
    if exists|i: int, number: int| #[trigger]
        is_met_first(entries, flow, i, number) && says(entries[i], "action"@, "allow"@) {
        let (i, number) = choose|i: int, number: int| #[trigger]
            is_met_first(entries, flow, i, number) && says(entries[i], "action"@, "allow"@);
        assert(applies(entries[i], flow));
        assert forall|j: int| 0 <= j < entries.len() && applies(#[trigger] entries[j], flow) implies {
            let own = (numbered(entries[i])->0).0;
            let other = (numbered(entries[j])->0).0;
            own < other || (own == other && i <= j)
        } by {
            assert(is_numbered(entries[j], (numbered(entries[j])->0).0));
        }
        assert(decides(entries, flow, i));
    }
}

/// Of a flow that is let through, each single port is covered by an entry that allows, and is about
/// the source of the flow.
pub proof fn what_is_let_through_is_covered(entries: Seq<Json>, flow: Flow, port: int)
    requires
        allows(entries, flow),
        flow.source_cidr.len() > 0,
        flow.protocol.len() > 0,
        flow.port_from <= port <= flow.port_to,
    ensures
        exists|i: int|
            0 <= i < entries.len() && says(#[trigger] entries[i], "action"@, "allow"@) && covers(
                entries[i],
                port,
            ) && (says(entries[i], "cidr_block"@, flow.source_cidr) || says(
                entries[i],
                "ipv6_cidr_block"@,
                flow.source_cidr,
            )),
{
    the_first_entry_decides(entries, flow);
    let (i, number) = choose|i: int, number: int| #[trigger]
        is_met_first(entries, flow, i, number) && says(entries[i], "action"@, "allow"@);
    assert(covers(entries[i], port));
}

} // verus!
