//! Resource model: the unit of infrastructure uncia tracks.

use vstd::prelude::*;

use crate::json::{maybe_text, Json, Object};
use crate::text::same;

verus! {

/// Stable identifier for a resource: the **Terraform address** (e.g. `aws_instance.web`,
/// `module.network.aws_security_group.internal`).
///
/// This is *not* the cloud-assigned ID. The cloud ID lives in `attributes["id"]` and is read via
/// [`Resource::cloud_id`]. The Terraform address is stable across replaces; the cloud ID is not.
#[derive(Debug, Hash)]
pub struct ResourceId(pub String);

/// What a [`ResourceKind`] denotes.
pub enum Kind {
    AwsSecurityGroup,
    AwsInstance,
    AwsLoadBalancer,
    AwsLbTargetGroup,
    AwsSecurityGroupRule,
    AwsVpcSecurityGroupIngressRule,
    AwsVpcSecurityGroupEgressRule,
    AwsLbTargetGroupAttachment,
    AwsLambdaFunction,
    AwsDbInstance,
    AwsEcsService,
    AwsNetworkAcl,
    Other(Seq<char>),
}

/// The kind of infrastructure resource (e.g. EC2 instance, security group).
///
/// Kinds uncia knows how to collect get their own variant; everything else is carried through as
/// [`ResourceKind::Other`] so unknown resources are still parsed and reportable, just not
/// collectable.
#[derive(Debug, Hash, PartialEq, Eq)]
#[non_exhaustive]
pub enum ResourceKind {
    AwsSecurityGroup,
    AwsInstance,
    AwsLoadBalancer,
    AwsLbTargetGroup,
    /// A rule declared as its own resource rather than inline on the group.
    ///
    /// These are never compared against live observations: no collector returns them, because AWS
    /// reports a group's rules on the group. They are read only as *declared intent*, and
    /// reconciled into the owning group's rule set before comparison. See `crate::diff::rules`.
    AwsSecurityGroupRule,
    AwsVpcSecurityGroupIngressRule,
    AwsVpcSecurityGroupEgressRule,
    /// A target-group registration declared as its own resource rather than an inline argument on
    /// the target group.
    ///
    /// Same treatment as [`ResourceKind::AwsSecurityGroupRule`]: read only as *declared intent*,
    /// and reconciled into the owning target group's `targets` before comparison. See
    /// `crate::diff::target_attachments`.
    AwsLbTargetGroupAttachment,
    AwsLambdaFunction,
    AwsDbInstance,
    AwsEcsService,
    /// A network ACL, whether declared as `aws_network_acl` or adopted as
    /// `aws_default_network_acl`.
    AwsNetworkAcl,
    Other(String),
}

impl View for ResourceKind {
    type V = Kind;

    open spec fn view(&self) -> Kind {
        match self {
            ResourceKind::AwsSecurityGroup => Kind::AwsSecurityGroup,
            ResourceKind::AwsInstance => Kind::AwsInstance,
            ResourceKind::AwsLoadBalancer => Kind::AwsLoadBalancer,
            ResourceKind::AwsLbTargetGroup => Kind::AwsLbTargetGroup,
            ResourceKind::AwsSecurityGroupRule => Kind::AwsSecurityGroupRule,
            ResourceKind::AwsVpcSecurityGroupIngressRule => Kind::AwsVpcSecurityGroupIngressRule,
            ResourceKind::AwsVpcSecurityGroupEgressRule => Kind::AwsVpcSecurityGroupEgressRule,
            ResourceKind::AwsLbTargetGroupAttachment => Kind::AwsLbTargetGroupAttachment,
            ResourceKind::AwsLambdaFunction => Kind::AwsLambdaFunction,
            ResourceKind::AwsDbInstance => Kind::AwsDbInstance,
            ResourceKind::AwsEcsService => Kind::AwsEcsService,
            ResourceKind::AwsNetworkAcl => Kind::AwsNetworkAcl,
            ResourceKind::Other(name) => Kind::Other(name@),
        }
    }
}

impl Kind {
    /// The Terraform resource type of this kind.
    pub open spec fn name(self) -> Seq<char> {
        match self {
            Kind::AwsSecurityGroup => "aws_security_group"@,
            Kind::AwsInstance => "aws_instance"@,
            Kind::AwsLoadBalancer => "aws_lb"@,
            Kind::AwsLbTargetGroup => "aws_lb_target_group"@,
            Kind::AwsSecurityGroupRule => "aws_security_group_rule"@,
            Kind::AwsVpcSecurityGroupIngressRule => "aws_vpc_security_group_ingress_rule"@,
            Kind::AwsVpcSecurityGroupEgressRule => "aws_vpc_security_group_egress_rule"@,
            Kind::AwsLbTargetGroupAttachment => "aws_lb_target_group_attachment"@,
            Kind::AwsLambdaFunction => "aws_lambda_function"@,
            Kind::AwsDbInstance => "aws_db_instance"@,
            Kind::AwsEcsService => "aws_ecs_service"@,
            Kind::AwsNetworkAcl => "aws_network_acl"@,
            Kind::Other(name) => name,
        }
    }
}

/// The kind that a Terraform resource type names.
pub open spec fn kind_named(name: Seq<char>) -> Kind {
    if name == "aws_security_group"@ {
        Kind::AwsSecurityGroup
    } else if name == "aws_instance"@ {
        Kind::AwsInstance
    } else if name == "aws_lb"@ || name == "aws_alb"@ {
        Kind::AwsLoadBalancer
    } else if name == "aws_lb_target_group"@ {
        Kind::AwsLbTargetGroup
    } else if name == "aws_security_group_rule"@ {
        Kind::AwsSecurityGroupRule
    } else if name == "aws_vpc_security_group_ingress_rule"@ {
        Kind::AwsVpcSecurityGroupIngressRule
    } else if name == "aws_vpc_security_group_egress_rule"@ {
        Kind::AwsVpcSecurityGroupEgressRule
    } else if name == "aws_lb_target_group_attachment"@ {
        Kind::AwsLbTargetGroupAttachment
    } else if name == "aws_lambda_function"@ {
        Kind::AwsLambdaFunction
    } else if name == "aws_db_instance"@ {
        Kind::AwsDbInstance
    } else if name == "aws_ecs_service"@ {
        Kind::AwsEcsService
    } else if name == "aws_network_acl"@ || name == "aws_default_network_acl"@ {
        Kind::AwsNetworkAcl
    } else {
        Kind::Other(name)
    }
}

impl ResourceKind {
    /// Map a Terraform resource type (e.g. `"aws_security_group"`) to a kind.
    pub fn from_terraform_type(terraform_type: &str) -> (r: Self)
        ensures
            r@ == kind_named(terraform_type@),
    {
        if same(terraform_type, "aws_security_group") {
            Self::AwsSecurityGroup
        } else if same(terraform_type, "aws_instance") {
            Self::AwsInstance
        } else if same(terraform_type, "aws_lb") || same(terraform_type, "aws_alb") {
            // "aws_alb" is a deprecated alias for "aws_lb": identical schema, still seen in older
            // state.
            Self::AwsLoadBalancer
        } else if same(terraform_type, "aws_lb_target_group") {
            Self::AwsLbTargetGroup
        } else if same(terraform_type, "aws_security_group_rule") {
            Self::AwsSecurityGroupRule
        } else if same(terraform_type, "aws_vpc_security_group_ingress_rule") {
            Self::AwsVpcSecurityGroupIngressRule
        } else if same(terraform_type, "aws_vpc_security_group_egress_rule") {
            Self::AwsVpcSecurityGroupEgressRule
        } else if same(terraform_type, "aws_lb_target_group_attachment") {
            Self::AwsLbTargetGroupAttachment
        } else if same(terraform_type, "aws_lambda_function") {
            Self::AwsLambdaFunction
        } else if same(terraform_type, "aws_db_instance") {
            Self::AwsDbInstance
        } else if same(terraform_type, "aws_ecs_service") {
            Self::AwsEcsService
        } else if same(terraform_type, "aws_network_acl") || same(
            terraform_type,
            "aws_default_network_acl",
        ) {
            Self::AwsNetworkAcl
        } else {
            Self::Other(terraform_type.to_owned())
        }
    }

    /// The Terraform resource type string for this kind.
    pub fn as_str(&self) -> (r: &str)
        ensures
            r@ == self@.name(),
    {
        match self {
            Self::AwsSecurityGroup => "aws_security_group",
            Self::AwsInstance => "aws_instance",
            Self::AwsLoadBalancer => "aws_lb",
            Self::AwsLbTargetGroup => "aws_lb_target_group",
            Self::AwsSecurityGroupRule => "aws_security_group_rule",
            Self::AwsVpcSecurityGroupIngressRule => "aws_vpc_security_group_ingress_rule",
            Self::AwsVpcSecurityGroupEgressRule => "aws_vpc_security_group_egress_rule",
            Self::AwsLbTargetGroupAttachment => "aws_lb_target_group_attachment",
            Self::AwsLambdaFunction => "aws_lambda_function",
            Self::AwsDbInstance => "aws_db_instance",
            Self::AwsEcsService => "aws_ecs_service",
            Self::AwsNetworkAcl => "aws_network_acl",
            Self::Other(s) => s.as_str(),
        }
    }
}

impl ResourceKind {
    /// Whether this is the kind `other`.
    pub fn same_as(&self, other: &ResourceKind) -> (r: bool)
        ensures
            r == (self@ == other@),
    {
        match self {
            Self::AwsSecurityGroup => matches!(other, Self::AwsSecurityGroup),
            Self::AwsInstance => matches!(other, Self::AwsInstance),
            Self::AwsLoadBalancer => matches!(other, Self::AwsLoadBalancer),
            Self::AwsLbTargetGroup => matches!(other, Self::AwsLbTargetGroup),
            Self::AwsSecurityGroupRule => matches!(other, Self::AwsSecurityGroupRule),
            Self::AwsVpcSecurityGroupIngressRule => matches!(other, Self::AwsVpcSecurityGroupIngressRule),
            Self::AwsVpcSecurityGroupEgressRule => matches!(other, Self::AwsVpcSecurityGroupEgressRule),
            Self::AwsLbTargetGroupAttachment => matches!(other, Self::AwsLbTargetGroupAttachment),
            Self::AwsLambdaFunction => matches!(other, Self::AwsLambdaFunction),
            Self::AwsDbInstance => matches!(other, Self::AwsDbInstance),
            Self::AwsEcsService => matches!(other, Self::AwsEcsService),
            Self::AwsNetworkAcl => matches!(other, Self::AwsNetworkAcl),
            Self::Other(a) => match other {
                Self::Other(b) => same(a.as_str(), b.as_str()),
                _ => false,
            },
        }
    }
}

impl Clone for ResourceKind {
    fn clone(&self) -> (r: Self)
        ensures
            r@ == self@,
    {
        match self {
            Self::AwsSecurityGroup => Self::AwsSecurityGroup,
            Self::AwsInstance => Self::AwsInstance,
            Self::AwsLoadBalancer => Self::AwsLoadBalancer,
            Self::AwsLbTargetGroup => Self::AwsLbTargetGroup,
            Self::AwsSecurityGroupRule => Self::AwsSecurityGroupRule,
            Self::AwsVpcSecurityGroupIngressRule => Self::AwsVpcSecurityGroupIngressRule,
            Self::AwsVpcSecurityGroupEgressRule => Self::AwsVpcSecurityGroupEgressRule,
            Self::AwsLbTargetGroupAttachment => Self::AwsLbTargetGroupAttachment,
            Self::AwsLambdaFunction => Self::AwsLambdaFunction,
            Self::AwsDbInstance => Self::AwsDbInstance,
            Self::AwsEcsService => Self::AwsEcsService,
            Self::AwsNetworkAcl => Self::AwsNetworkAcl,
            Self::Other(s) => Self::Other(s.clone()),
        }
    }
}

impl View for ResourceId {
    type V = Seq<char>;

    open spec fn view(&self) -> Seq<char> {
        self.0@
    }
}

impl Clone for ResourceId {
    fn clone(&self) -> (r: Self)
        ensures
            r@ == self@,
    {
        ResourceId(self.0.clone())
    }
}

impl PartialEq for ResourceId {
    fn eq(&self, other: &Self) -> (r: bool) {
        same(self.0.as_str(), other.0.as_str())
    }
}

impl vstd::std_specs::cmp::PartialEqSpecImpl for ResourceId {
    open spec fn obeys_eq_spec() -> bool {
        true
    }

    open spec fn eq_spec(&self, other: &Self) -> bool {
        self@ == other@
    }
}

impl Eq for ResourceId {

}

/// A single tracked infrastructure resource, as declared in state.
#[derive(Debug)]
pub struct Resource {
    pub id: ResourceId,
    pub kind: ResourceKind,
    /// The resource's attribute values as recorded in Terraform state.
    pub attributes: Object,
}

/// What a [`Resource`] denotes.
pub struct Declared {
    /// The Terraform address.
    pub id: Seq<char>,
    pub kind: Kind,
    pub attributes: Map<Seq<char>, Json>,
}

impl View for Resource {
    type V = Declared;

    open spec fn view(&self) -> Declared {
        Declared { id: self.id@, kind: self.kind@, attributes: self.attributes@ }
    }
}

/// The value under `key` among `attributes`, when it is a text.
pub open spec fn text_at(attributes: Map<Seq<char>, Json>, key: Seq<char>) -> Option<Seq<char>> {
    match Json::Object(attributes).get(key) {
        Some(value) => value.text(),
        None => None,
    }
}

impl Declared {
    /// The cloud-assigned identifier, if the state recorded one.
    pub open spec fn cloud_id(self) -> Option<Seq<char>> {
        text_at(self.attributes, "id"@)
    }
}

/// What each of a list of resources denotes.
pub open spec fn declared_views(resources: Seq<Resource>) -> Seq<Declared> {
    resources.map_values(|r: Resource| r@)
}

impl Clone for Resource {
    fn clone(&self) -> (r: Self)
        ensures
            r@ == self@,
    {
        Resource {
            id: self.id.clone(),
            kind: self.kind.clone(),
            attributes: self.attributes.clone(),
        }
    }
}

/// Reads the value under `key` among `attributes`, when it is a text.
pub fn text_of<'a>(attributes: &'a Object, key: &str) -> (r: Option<&'a str>)
    ensures
        maybe_text(r) == text_at(attributes@, key@),
{
    match attributes.get(key) {
        Some(value) => value.as_str(),
        None => None,
    }
}

impl Resource {
    /// The cloud-assigned identifier (e.g. `i-0abc123`, `sg-0def456`), if the state recorded one.
    ///
    /// This is the one place the `attributes["id"]` convention is encoded; joining declared
    /// resources to live observations must go through here, never through [`ResourceId`].
    pub fn cloud_id(&self) -> (r: Option<&str>)
        ensures
            maybe_text(r) == self@.cloud_id(),
    {
        text_of(&self.attributes, "id")
    }
}

proof fn names_differ()
    ensures
        "aws_security_group"@.len() == 18,
        "aws_instance"@.len() == 12,
        "aws_lb"@.len() == 6,
        "aws_alb"@.len() == 7,
        "aws_lb_target_group"@.len() == 19,
        "aws_lb_target_group"@[5] == 'b',
        "aws_security_group_rule"@.len() == 23,
        "aws_security_group_rule"@[4] == 's',
        "aws_vpc_security_group_ingress_rule"@.len() == 35,
        "aws_vpc_security_group_egress_rule"@.len() == 34,
        "aws_lb_target_group_attachment"@.len() == 30,
        "aws_lambda_function"@.len() == 19,
        "aws_lambda_function"@[5] == 'a',
        "aws_db_instance"@.len() == 15,
        "aws_db_instance"@[4] == 'd',
        "aws_ecs_service"@.len() == 15,
        "aws_ecs_service"@[4] == 'e',
        "aws_network_acl"@.len() == 15,
        "aws_network_acl"@[4] == 'n',
        "aws_default_network_acl"@.len() == 23,
        "aws_default_network_acl"@[4] == 'd',
{
    reveal_strlit("aws_security_group");
    reveal_strlit("aws_instance");
    reveal_strlit("aws_lb");
    reveal_strlit("aws_alb");
    reveal_strlit("aws_lb_target_group");
    reveal_strlit("aws_security_group_rule");
    reveal_strlit("aws_vpc_security_group_ingress_rule");
    reveal_strlit("aws_vpc_security_group_egress_rule");
    reveal_strlit("aws_lb_target_group_attachment");
    reveal_strlit("aws_lambda_function");
    reveal_strlit("aws_db_instance");
    reveal_strlit("aws_ecs_service");
    reveal_strlit("aws_network_acl");
    reveal_strlit("aws_default_network_acl");
}

/// The Terraform resource type of a kind names that kind. An `Other` that carries a type of a known
/// kind is the exception: its type names the known kind.
pub proof fn name_names_the_kind(kind: Kind)
    requires
        kind matches Kind::Other(name) ==> kind_named(name) is Other,
    ensures
        kind_named(kind.name()) == kind,
{
    names_differ();
}

/// Every Terraform resource type is the name of the kind it names, but for the two that are known
/// under another name.
pub proof fn kind_keeps_the_name(name: Seq<char>)
    requires
        name != "aws_alb"@,
        name != "aws_default_network_acl"@,
    ensures
        kind_named(name).name() == name,
{
}

} // verus!
