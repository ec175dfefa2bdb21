//! AWS network ACLs, as `DescribeNetworkAcls` reports them, in the shape of `aws_network_acl`.
//!
//! Normalization pitfalls handled here:
//! - AWS auto-creates an implicit "deny all" rule on every NACL, ingress and egress, at rule number
//!   32767 (IPv4) / 32768 (IPv6). These can be neither configured nor deleted by users, and
//!   Terraform's own read skips them for exactly that reason.
//! - `protocol` is already a protocol-*number* string on the wire (`"-1"` means all protocols) and
//!   Terraform records exactly that number, not a name.
//! - A NACL declares its subnet associations directly, so `subnet_ids` is a flat,
//!   directly-comparable field.
//! - `from_port`/`to_port` absent (protocol `-1`, or an ICMP rule) normalize to `0`, and
//!   `icmp_type`/`icmp_code` absent (a non-ICMP rule) normalize to `0` too.

use vstd::prelude::*;

use crate::collector::aws::{
    given, given_texts, int_json, number_or_zero, or_empty, or_zero, tag_map, tags_object,
    text_or_empty, Tag,
};
use crate::collector::{LiveResource, Observed};
use crate::json::{array_of, jsons, text_array, value_view, Json, JsonValue, Object};
use crate::text::{sorted, sorted_texts};
use crate::types::resource::{Kind, ResourceKind};

verus! {

/// The port range of an entry.
#[derive(Debug)]
pub struct PortRange {
    pub from: Option<i32>,
    pub to: Option<i32>,
}

/// The ICMP type and code of an entry.
#[derive(Debug)]
pub struct IcmpTypeCode {
    pub icmp_type: Option<i32>,
    pub code: Option<i32>,
}

/// An entry of a network ACL.
#[derive(Debug)]
pub struct NetworkAclEntry {
    pub rule_number: Option<i32>,
    pub egress: Option<bool>,
    /// The action, `allow` or `deny`.
    pub rule_action: Option<String>,
    pub protocol: Option<String>,
    pub cidr_block: Option<String>,
    pub ipv6_cidr_block: Option<String>,
    pub port_range: Option<PortRange>,
    pub icmp_type_code: Option<IcmpTypeCode>,
}

/// A network ACL.
#[derive(Debug)]
pub struct NetworkAcl {
    pub network_acl_id: Option<String>,
    pub vpc_id: Option<String>,
    pub owner_id: Option<String>,
    pub tags: Vec<Tag>,
    /// The subnet id of each association.
    pub associations: Vec<Option<String>>,
    pub entries: Vec<NetworkAclEntry>,
}

/// One of the two rules that AWS creates on every network ACL.
pub open spec fn is_implicit(entry: NetworkAclEntry) -> bool {
    or_zero(entry.rule_number) == 32767 || or_zero(entry.rule_number) == 32768
}

/// The entry is about outgoing traffic.
pub open spec fn is_egress(entry: NetworkAclEntry) -> bool {
    entry.egress == Some(true)
}

/// An entry as a rule block.
pub open spec fn entry_block(entry: NetworkAclEntry) -> Json {
    let (from_port, to_port) = match entry.port_range {
        Some(range) => (or_zero(range.from), or_zero(range.to)),
        None => (0, 0),
    };
    let (icmp_type, icmp_code) = match entry.icmp_type_code {
        Some(icmp) => (or_zero(icmp.icmp_type), or_zero(icmp.code)),
        None => (0, 0),
    };
    Json::Object(
        map![
            "rule_no"@ => int_json(or_zero(entry.rule_number)),
            "action"@ => Json::Text(or_empty(entry.rule_action)),
            "protocol"@ => Json::Text(or_empty(entry.protocol)),
            "cidr_block"@ => Json::Text(or_empty(entry.cidr_block)),
            "ipv6_cidr_block"@ => Json::Text(or_empty(entry.ipv6_cidr_block)),
            "from_port"@ => int_json(from_port),
            "to_port"@ => int_json(to_port),
            "icmp_type"@ => int_json(icmp_type),
            "icmp_code"@ => int_json(icmp_code),
        ],
    )
}

/// The entries of one direction that are configured, as rule blocks in their order.
pub open spec fn entry_blocks(entries: Seq<NetworkAclEntry>, egress: bool) -> Seq<Json>
    decreases entries.len(),
{
    if entries.len() == 0 {
        Seq::empty()
    } else {
        let before = entry_blocks(entries.drop_last(), egress);
        let last = entries.last();
        if !is_implicit(last) && is_egress(last) == egress {
            before.push(entry_block(last))
        } else {
            before
        }
    }
}

/// The attributes of a network ACL.
pub open spec fn acl_attributes(acl: NetworkAcl, id: Seq<char>) -> Map<Seq<char>, Json> {
    map![
        "id"@ => Json::Text(id),
        "vpc_id"@ => Json::Text(or_empty(acl.vpc_id)),
        "owner_id"@ => Json::Text(or_empty(acl.owner_id)),
        "subnet_ids"@ => text_array(sorted(given(acl.associations@))),
        "tags"@ => Json::Object(tag_map(acl.tags@)),
        "ingress"@ => Json::Array(entry_blocks(acl.entries@, false)),
        "egress"@ => Json::Array(entry_blocks(acl.entries@, true)),
    ]
}

fn block_of(entry: &NetworkAclEntry) -> (r: JsonValue)
    ensures
        r@ == entry_block(*entry),
{
    broadcast use value_view;
    let (from_port, to_port) = match &entry.port_range {
        Some(range) => (number_or_zero(range.from), number_or_zero(range.to)),
        None => (JsonValue::from_i64(0), JsonValue::from_i64(0)),
    };
    let (icmp_type, icmp_code) = match &entry.icmp_type_code {
        Some(icmp) => (number_or_zero(icmp.icmp_type), number_or_zero(icmp.code)),
        None => (JsonValue::from_i64(0), JsonValue::from_i64(0)),
    };
    let block = Object::new().with("rule_no", number_or_zero(entry.rule_number)).with(
        "action",
        text_or_empty(&entry.rule_action),
    ).with("protocol", text_or_empty(&entry.protocol)).with(
        "cidr_block",
        text_or_empty(&entry.cidr_block),
    ).with("ipv6_cidr_block", text_or_empty(&entry.ipv6_cidr_block)).with(
        "from_port",
        from_port,
    ).with("to_port", to_port).with("icmp_type", icmp_type).with("icmp_code", icmp_code);
    assert(block@ =~= entry_block(*entry)->Object_0);
    JsonValue::Object(block)
}

/// The configured entries of one direction as rule blocks.
pub fn entries_to_value(entries: &Vec<NetworkAclEntry>, egress: bool) -> (r: JsonValue)
    ensures
        r@ == Json::Array(entry_blocks(entries@, egress)),
{
    broadcast use value_view;
    let mut blocks: Vec<JsonValue> = Vec::new();
    let mut i: usize = 0;
    assert(jsons(blocks@) =~= Seq::empty());
    while i < entries.len()
        invariant
            i <= entries.len(),
            jsons(blocks@) == entry_blocks(entries@.take(i as int), egress),
        decreases entries.len() - i,
    {
        let entry = &entries[i];
        let ghost before = blocks@;
        assert(entries@.take(i + 1).drop_last() =~= entries@.take(i as int));
        assert(entries@.take(i + 1).last() == *entry);
        let number: i32 = match entry.rule_number {
            Some(number) => number,
            None => 0,
        };
        let outgoing = match entry.egress {
            Some(outgoing) => outgoing,
            None => false,
        };
        if number != 32767 && number != 32768 && outgoing == egress {
            let block = block_of(entry);
            let ghost view = block@;
            blocks.push(block);
            assert(jsons(blocks@) =~= jsons(before).push(view));
        }
        i += 1;
    }
    assert(entries@.take(i as int) =~= entries@);
    JsonValue::Array(blocks)
}

/// Normalize one API-shaped network ACL into Terraform-state-shaped attributes. Returns `None` for a
/// NACL with no id (never observed in practice, but the API models it as optional).
pub fn normalize(acl: &NetworkAcl) -> (r: Option<LiveResource>)
    ensures
        match r {
            Some(live) => acl.network_acl_id matches Some(id) && live@ == (Observed {
                cloud_id: id@,
                kind: Kind::AwsNetworkAcl,
                attributes: acl_attributes(*acl, id@),
            }),
            None => acl.network_acl_id is None,
        },
{
    let id = match &acl.network_acl_id {
        Some(id) => id.clone(),
        None => return None,
    };
    let attributes = Object::new().with("id", JsonValue::from_text(id.as_str())).with(
        "vpc_id",
        text_or_empty(&acl.vpc_id),
    ).with("owner_id", text_or_empty(&acl.owner_id)).with(
        "subnet_ids",
        array_of(&sorted_texts(given_texts(&acl.associations))),
    ).with("tags", tags_object(&acl.tags)).with(
        "ingress",
        entries_to_value(&acl.entries, false),
    ).with("egress", entries_to_value(&acl.entries, true));
    assert(attributes@ =~= acl_attributes(*acl, id@));
    Some(LiveResource { cloud_id: id, kind: ResourceKind::AwsNetworkAcl, attributes })
}

/// The rules that AWS creates on every network ACL are left out, and every configured one is there
/// in its own direction.
pub proof fn configured_entries_only(entries: Seq<NetworkAclEntry>, egress: bool, block: Json)
    ensures
        entry_blocks(entries, egress).contains(block) <==> exists|i: int|
            0 <= i < entries.len() && !is_implicit(#[trigger] entries[i]) && is_egress(entries[i])
                == egress && block == entry_block(entries[i]),
    decreases entries.len(),
{
    broadcast use vstd::seq_lib::group_seq_properties;

    if entries.len() > 0 {
        let rest = entries.drop_last();
        configured_entries_only(rest, egress, block);
        let before = entry_blocks(rest, egress);
        let all = entry_blocks(entries, egress);
        assert(entries[entries.len() - 1] == entries.last());
        if before.contains(block) {
            let i = choose|i: int|
                0 <= i < rest.len() && !is_implicit(#[trigger] rest[i]) && is_egress(rest[i])
                    == egress && block == entry_block(rest[i]);
            assert(entries[i] == rest[i]);
        }
        assert forall|i: int|
            0 <= i < entries.len() && !is_implicit(#[trigger] entries[i]) && is_egress(entries[i])
                == egress && block == entry_block(entries[i]) implies all.contains(block) by {
            if i < rest.len() {
                assert(rest[i] == entries[i]);
            }
        }
    }
}

} // verus!
