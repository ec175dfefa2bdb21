//! Reading declared state: `terraform show -json` output, raw `.tfstate`, and what is neither.
//!
//! The bad-input tests assert the specific error: each way an input can be wrong fails with an
//! error that names the actual problem, never with an empty parse.

use uncia::error::StateJsonError;
use uncia::json::{JsonValue, Object};
use uncia::state::{self, terraform, tfstate};
use uncia::{Resource, ResourceKind, UnciaError};

const SIMPLE: &str = r#"{
  "format_version": "1.0",
  "terraform_version": "1.9.8",
  "values": {
    "root_module": {
      "resources": [
        {
          "address": "aws_security_group.web",
          "mode": "managed",
          "type": "aws_security_group",
          "name": "web",
          "provider_name": "registry.terraform.io/hashicorp/aws",
          "schema_version": 1,
          "values": {
            "id": "sg-0123456789abcdef0",
            "name": "web",
            "description": "web tier",
            "vpc_id": "vpc-0aa11bb22cc33dd44",
            "ingress": [
              {
                "from_port": 443, "to_port": 443, "protocol": "tcp",
                "cidr_blocks": ["0.0.0.0/0"], "ipv6_cidr_blocks": [], "prefix_list_ids": [],
                "security_groups": [], "self": false
              }
            ],
            "egress": [],
            "tags": {"Name": "web"}
          }
        },
        {
          "address": "aws_instance.web",
          "mode": "managed",
          "type": "aws_instance",
          "name": "web",
          "values": {"id": "i-0abc123def4567890", "instance_type": "t3.medium"}
        },
        {
          "address": "data.aws_ami.ubuntu",
          "mode": "data",
          "type": "aws_ami",
          "name": "ubuntu",
          "values": {"id": "ami-0aabbccdd11223344"}
        },
        {
          "address": "aws_s3_bucket.assets",
          "mode": "managed",
          "type": "aws_s3_bucket",
          "name": "assets",
          "values": {"id": "assets-bucket"}
        }
      ]
    }
  }
}"#;

const CHILD_MODULES: &str = r#"{
  "format_version": "1.0",
  "values": {
    "root_module": {
      "resources": [
        {
          "address": "aws_security_group.edge", "mode": "managed",
          "type": "aws_security_group", "name": "edge", "values": {"id": "sg-edge"}
        }
      ],
      "child_modules": [
        {
          "address": "module.network",
          "resources": [
            {
              "address": "module.network.aws_security_group.internal", "mode": "managed",
              "type": "aws_security_group", "name": "internal", "values": {"id": "sg-internal"}
            }
          ],
          "child_modules": [
            {
              "address": "module.network.module.private",
              "resources": [
                {
                  "address": "module.network.module.private.aws_instance.db", "mode": "managed",
                  "type": "aws_instance", "name": "db", "values": {"id": "i-db"}
                }
              ]
            }
          ]
        }
      ]
    }
  }
}"#;

const EMPTY_STATE: &str = r#"{"format_version": "1.0", "terraform_version": "1.9.8"}"#;

const ENCRYPTED_TOFU: &str = r#"{
  "serial": 3,
  "lineage": "11111111-2222-3333-4444-555555555555",
  "meta": {"key_provider.pbkdf2.default": "eyJzYWx0IjoiIn0="},
  "encrypted_data": "b3BhcXVl",
  "encryption_version": "v0"
}"#;

const RAW_TFSTATE: &str = r#"{
  "version": 4,
  "terraform_version": "1.9.8",
  "serial": 7,
  "lineage": "11111111-2222-3333-4444-555555555555",
  "outputs": {},
  "resources": [
    {
      "mode": "managed",
      "type": "aws_security_group",
      "name": "web",
      "provider": "provider[\"registry.terraform.io/hashicorp/aws\"]",
      "instances": [
        {
          "schema_version": 1,
          "attributes": {
            "id": "sg-0123456789abcdef0",
            "ingress": [{"from_port": 443, "to_port": 443, "protocol": "tcp"}]
          }
        }
      ]
    },
    {
      "mode": "managed",
      "type": "aws_instance",
      "name": "web",
      "provider": "provider[\"registry.terraform.io/hashicorp/aws\"]",
      "instances": [{"schema_version": 1, "attributes": {"id": "i-0abc123def4567890"}}]
    },
    {
      "module": "module.network",
      "mode": "managed",
      "type": "aws_instance",
      "name": "db",
      "provider": "provider[\"registry.terraform.io/hashicorp/aws\"]",
      "instances": [{"schema_version": 1, "attributes": {"id": "i-db"}}]
    }
  ],
  "check_results": null
}"#;

const RAW_INDEXED: &str = r#"{
  "version": 4,
  "resources": [
    {
      "mode": "managed", "type": "aws_instance", "name": "counted",
      "instances": [
        {"index_key": 0, "attributes": {"id": "i-0"}},
        {"index_key": 1, "attributes": {"id": "i-1"}}
      ]
    },
    {
      "mode": "managed", "type": "aws_instance", "name": "keyed",
      "instances": [{"index_key": "blue", "attributes": {"id": "i-blue"}}]
    }
  ]
}"#;

const RAW_DEPOSED: &str = r#"{
  "version": 4,
  "resources": [
    {
      "mode": "data", "type": "aws_ami", "name": "ubuntu",
      "instances": [{"attributes": {"id": "ami-1"}}]
    },
    {
      "mode": "managed", "type": "aws_instance", "name": "web",
      "instances": [
        {"deposed": "a1b2c3d4", "attributes": {"id": "i-deposed000000000"}},
        {"attributes": {"id": "i-current000000000"}}
      ]
    }
  ]
}"#;

const RAW_VERSION_3: &str = r#"{"version": 3, "resources": []}"#;

const BAD_VERSION: &str = r#"{"format_version": "2.0", "values": {"root_module": {}}}"#;

const PLAN_OUTPUT: &str = r#"{
  "format_version": "1.2",
  "terraform_version": "1.9.8",
  "planned_values": {"root_module": {}},
  "resource_changes": []
}"#;

const EQUIVALENT_SHOW: &str = r#"{
  "format_version": "1.0",
  "terraform_version": "1.9.8",
  "values": {
    "root_module": {
      "resources": [
        {
          "address": "terraform_data.counted[0]", "mode": "managed", "type": "terraform_data",
          "name": "counted", "index": 0, "values": {"id": "c0", "input": "zero"}
        },
        {
          "address": "terraform_data.counted[1]", "mode": "managed", "type": "terraform_data",
          "name": "counted", "index": 1, "values": {"id": "c1", "input": "one"}
        },
        {
          "address": "terraform_data.keyed[\"blue\"]", "mode": "managed",
          "type": "terraform_data", "name": "keyed", "index": "blue", "values": {"id": "kb"}
        },
        {
          "address": "terraform_data.keyed[\"green\"]", "mode": "managed",
          "type": "terraform_data", "name": "keyed", "index": "green", "values": {"id": "kg"}
        },
        {
          "address": "terraform_data.web", "mode": "managed", "type": "terraform_data",
          "name": "web", "values": {"id": "w"}
        }
      ],
      "child_modules": [
        {
          "address": "module.network",
          "resources": [
            {
              "address": "module.network.terraform_data.inner", "mode": "managed",
              "type": "terraform_data", "name": "inner", "values": {"id": "in"}
            }
          ]
        }
      ]
    }
  }
}"#;

const EQUIVALENT_RAW: &str = r#"{
  "version": 4,
  "terraform_version": "1.9.8",
  "resources": [
    {
      "mode": "managed", "type": "terraform_data", "name": "counted",
      "instances": [
        {"index_key": 0, "attributes": {"id": "c0", "input": "zero"}},
        {"index_key": 1, "attributes": {"id": "c1", "input": "one"}}
      ]
    },
    {
      "mode": "managed", "type": "terraform_data", "name": "keyed",
      "instances": [
        {"index_key": "blue", "attributes": {"id": "kb"}},
        {"index_key": "green", "attributes": {"id": "kg"}}
      ]
    },
    {
      "mode": "managed", "type": "terraform_data", "name": "web",
      "instances": [{"attributes": {"id": "w"}}]
    },
    {
      "module": "module.network",
      "mode": "managed", "type": "terraform_data", "name": "inner",
      "instances": [{"attributes": {"id": "in"}}]
    }
  ]
}"#;

fn addresses(resources: &[Resource]) -> Vec<&str> {
    resources.iter().map(|r| r.id.0.as_str()).collect()
}

fn sorted(mut resources: Vec<Resource>) -> Vec<Resource> {
    resources.sort_by(|a, b| a.id.0.cmp(&b.id.0));
    resources
}

fn first_ingress_port(attributes: &Object) -> Option<i64> {
    attributes.get("ingress").unwrap().as_array().unwrap()[0].get("from_port").unwrap().as_i64()
}

// --- `terraform show -json` ---

#[test]
fn parses_root_module_resources() {
    let resources = terraform::parse(SIMPLE).unwrap();

    assert_eq!(
        addresses(&resources),
        ["aws_security_group.web", "aws_instance.web", "aws_s3_bucket.assets"]
    );

    let sg = &resources[0];
    assert_eq!(sg.kind, ResourceKind::AwsSecurityGroup);
    assert_eq!(sg.cloud_id(), Some("sg-0123456789abcdef0"));
    assert_eq!(
        sg.attributes.get("vpc_id").unwrap().as_str(),
        Some("vpc-0aa11bb22cc33dd44")
    );
    assert_eq!(first_ingress_port(&sg.attributes), Some(443));

    let instance = &resources[1];
    assert_eq!(instance.kind, ResourceKind::AwsInstance);
    assert_eq!(instance.cloud_id(), Some("i-0abc123def4567890"));
    assert_eq!(
        instance.attributes.get("instance_type").unwrap().as_str(),
        Some("t3.medium")
    );

    let bucket = &resources[2];
    assert_eq!(bucket.kind, ResourceKind::Other("aws_s3_bucket".to_string()));
    assert_eq!(bucket.kind.as_str(), "aws_s3_bucket");
}

#[test]
fn walks_child_modules_recursively() {
    let resources = terraform::parse(CHILD_MODULES).unwrap();

    assert_eq!(
        addresses(&resources),
        [
            "aws_security_group.edge",
            "module.network.aws_security_group.internal",
            "module.network.module.private.aws_instance.db"
        ]
    );
}

#[test]
fn empty_state_is_legitimately_empty() {
    let resources = terraform::parse(EMPTY_STATE).unwrap();
    assert!(resources.is_empty());
}

#[test]
fn rejects_non_json() {
    let err = terraform::parse("this is not json").unwrap_err();
    assert!(matches!(err, UnciaError::StateJson(_)), "got: {err:?}");
}

#[test]
fn rejects_encrypted_state() {
    let err = terraform::parse(ENCRYPTED_TOFU).unwrap_err();
    assert!(matches!(err, UnciaError::EncryptedState), "got: {err:?}");
}

#[test]
fn rejects_raw_tfstate_file() {
    let err = terraform::parse(RAW_TFSTATE).unwrap_err();
    assert!(matches!(err, UnciaError::RawStateFile), "got: {err:?}");
}

#[test]
fn rejects_unsupported_format_version() {
    let err = terraform::parse(BAD_VERSION).unwrap_err();
    assert!(
        matches!(&err, UnciaError::UnsupportedFormatVersion { found } if found == "2.0"),
        "got: {err:?}"
    );
}

#[test]
fn rejects_plan_output_rather_than_reporting_empty() {
    let err = terraform::parse(PLAN_OUTPUT).unwrap_err();
    assert!(
        matches!(&err, UnciaError::WrongDocumentKind { marker } if marker == "planned_values"),
        "got: {err:?}"
    );
}

#[test]
fn a_plan_with_changes_alone_is_recognised_by_them() {
    let err = terraform::parse(r#"{"format_version": "1.2", "resource_changes": []}"#).unwrap_err();
    assert!(
        matches!(&err, UnciaError::WrongDocumentKind { marker } if marker == "resource_changes"),
        "got: {err:?}"
    );
}

#[test]
fn a_resource_without_a_required_field_is_named() {
    let text = r#"{"format_version": "1.0", "values": {"root_module": {"resources": [
        {"address": "a.b", "mode": "managed", "values": {}}
    ]}}}"#;
    let err = terraform::parse(text).unwrap_err();
    assert!(
        matches!(&err, UnciaError::StateJson(StateJsonError::Field(field)) if field == "type"),
        "got: {err:?}"
    );
}

// --- Raw `.tfstate` ---

#[test]
fn parses_root_and_module_resources() {
    let resources = tfstate::parse(RAW_TFSTATE).unwrap();

    assert_eq!(
        addresses(&resources),
        ["aws_security_group.web", "aws_instance.web", "module.network.aws_instance.db"]
    );

    let sg = &resources[0];
    assert_eq!(sg.kind, ResourceKind::AwsSecurityGroup);
    assert_eq!(sg.cloud_id(), Some("sg-0123456789abcdef0"));
    assert_eq!(first_ingress_port(&sg.attributes), Some(443));

    assert_eq!(resources[1].kind, ResourceKind::AwsInstance);
    assert_eq!(resources[1].cloud_id(), Some("i-0abc123def4567890"));
}

#[test]
fn reconstructs_count_and_for_each_addresses() {
    let resources = tfstate::parse(RAW_INDEXED).unwrap();

    assert_eq!(
        addresses(&resources),
        [
            "aws_instance.counted[0]",
            "aws_instance.counted[1]",
            "aws_instance.keyed[\"blue\"]",
        ]
    );
}

#[test]
fn skips_data_sources_and_deposed_instances() {
    let resources = tfstate::parse(RAW_DEPOSED).unwrap();

    assert_eq!(addresses(&resources), ["aws_instance.web"]);
    assert_eq!(resources[0].cloud_id(), Some("i-current000000000"));
}

#[test]
fn rejects_unsupported_schema_version() {
    let err = tfstate::parse(RAW_VERSION_3).unwrap_err();
    assert!(
        matches!(&err, UnciaError::UnsupportedStateVersion { found } if *found == 3),
        "got: {err:?}"
    );
}

#[test]
fn empty_resources_list_is_empty() {
    let resources = tfstate::parse(r#"{"version": 4, "resources": []}"#).unwrap();
    assert!(resources.is_empty());
}

#[test]
fn an_address_has_the_module_and_the_index() {
    assert_eq!(tfstate::address_of(None, "aws_instance", "web", None), "aws_instance.web");
    assert_eq!(
        tfstate::address_of(
            Some("module.a"),
            "aws_instance",
            "web",
            Some(&JsonValue::from_i64(2))
        ),
        "module.a.aws_instance.web[2]"
    );
    assert_eq!(
        tfstate::address_of(None, "aws_instance", "web", Some(&JsonValue::from_text("k"))),
        "aws_instance.web[\"k\"]"
    );
}

// --- Either kind ---

#[test]
fn both_parsers_agree_on_real_terraform_output() {
    let from_show = sorted(state::parse(EQUIVALENT_SHOW).unwrap());
    let from_raw = sorted(state::parse(EQUIVALENT_RAW).unwrap());

    assert_eq!(from_show.len(), 6, "expected 6 resources in the fixture");

    let show_addresses = addresses(&from_show);
    assert_eq!(
        show_addresses,
        [
            "module.network.terraform_data.inner",
            "terraform_data.counted[0]",
            "terraform_data.counted[1]",
            "terraform_data.keyed[\"blue\"]",
            "terraform_data.keyed[\"green\"]",
            "terraform_data.web",
        ]
    );

    assert_eq!(show_addresses, addresses(&from_raw));

    for (show, raw) in from_show.iter().zip(from_raw.iter()) {
        assert_eq!(show.kind, raw.kind, "kind mismatch for {}", show.id.0);
        assert_eq!(show.cloud_id(), raw.cloud_id(), "cloud id mismatch for {}", show.id.0);
        assert!(show.cloud_id().is_some(), "{} should carry a cloud id", show.id.0);
    }
}

#[test]
fn dispatch_routes_both_document_kinds() {
    assert!(!state::parse(EQUIVALENT_SHOW).unwrap().is_empty());
    assert!(!state::parse(EQUIVALENT_RAW).unwrap().is_empty());
}

#[test]
fn dispatch_still_rejects_wrong_documents() {
    assert!(matches!(
        state::parse(ENCRYPTED_TOFU).unwrap_err(),
        UnciaError::EncryptedState
    ));
    assert!(matches!(
        state::parse(PLAN_OUTPUT).unwrap_err(),
        UnciaError::WrongDocumentKind { .. }
    ));
    assert!(matches!(
        state::parse("{}").unwrap_err(),
        UnciaError::UnsupportedFormatVersion { .. }
    ));
    assert!(matches!(
        state::parse("not json").unwrap_err(),
        UnciaError::StateJson(_)
    ));
}
