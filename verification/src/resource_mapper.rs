//! The Terraform resource type that stands for a kind of resource on a
//! cloud, with the names that the attributes of the resource have there.

use vstd::prelude::*;
use vstd::string::StringExecFns;
use crate::text::str_eq;

verus! {

/// A Terraform resource type.
#[derive(Debug, PartialEq, Eq)]
pub struct TerraformResourceType {
    /// The Terraform provider of the resource type.
    pub provider: String,
    /// The name of the resource type.
    pub resource_type: String,
    /// For attributes of the resource, the name of the attribute in
    /// Terraform.
    pub attribute_mappings: Vec<(String, String)>,
}

/// A Terraform resource type as the proofs see it.
pub struct ResourceTypeView {
    pub provider: Seq<char>,
    pub resource_type: Seq<char>,
    pub attribute_mappings: Seq<(Seq<char>, Seq<char>)>,
}

/// Pairs of texts as the proofs see them.
pub open spec fn pairs_view(pairs: Seq<(String, String)>) -> Seq<(Seq<char>, Seq<char>)> {
    Seq::new(pairs.len(), |i: int| (pairs[i].0@, pairs[i].1@))
}

impl View for TerraformResourceType {
    type V = ResourceTypeView;

    open spec fn view(&self) -> ResourceTypeView {
        ResourceTypeView {
            provider: self.provider@,
            resource_type: self.resource_type@,
            attribute_mappings: pairs_view(self.attribute_mappings@),
        }
    }
}

/// One row of the table: a kind of resource, a cloud, and the Terraform
/// resource type that stands for the one on the other.
pub struct Mapping {
    pub resource_type: String,
    pub cloud_provider: String,
    pub terraform: TerraformResourceType,
}

/// A row as the proofs see it.
pub struct MappingView {
    pub resource_type: Seq<char>,
    pub cloud_provider: Seq<char>,
    pub terraform: ResourceTypeView,
}

impl View for Mapping {
    type V = MappingView;

    open spec fn view(&self) -> MappingView {
        MappingView {
            resource_type: self.resource_type@,
            cloud_provider: self.cloud_provider@,
            terraform: self.terraform@,
        }
    }
}

/// The rows as the proofs see them.
pub open spec fn rows_view(rows: Seq<Mapping>) -> Seq<MappingView> {
    Seq::new(rows.len(), |i: int| rows[i]@)
}

/// The row for `RelationalDatabaseServer` on `AWS`.
pub open spec fn aws_database() -> MappingView {
    MappingView {
        resource_type: "RelationalDatabaseServer"@,
        cloud_provider: "AWS"@,
        terraform: ResourceTypeView {
            provider: "aws"@,
            resource_type: "aws_db_instance"@,
            attribute_mappings: seq![
                ("engine"@, "engine"@),
                ("engine_version"@, "engine_version"@),
                ("instance_class"@, "instance_class"@),
                ("allocated_storage"@, "allocated_storage"@),
                ("storage_type"@, "storage_type"@),
                ("db_name"@, "db_name"@),
                ("username"@, "username"@),
                ("password"@, "password"@),
                ("port"@, "port"@),
                ("publicly_accessible"@, "publicly_accessible"@),
                ("multi_az"@, "multi_az"@),
                ("backup_retention_period"@, "backup_retention_period"@),
            ],
        },
    }
}

/// The row for `ContainerOrchestrator` on `AWS`.
pub open spec fn aws_containers() -> MappingView {
    MappingView {
        resource_type: "ContainerOrchestrator"@,
        cloud_provider: "AWS"@,
        terraform: ResourceTypeView {
            provider: "aws"@,
            resource_type: "aws_ecs_cluster"@,
            attribute_mappings: seq![
                ("cluster_name"@, "name"@),
                ("capacity_providers"@, "capacity_providers"@),
                ("default_capacity_provider_strategy"@, "default_capacity_provider_strategy"@),
            ],
        },
    }
}

/// The row for `Storage` on `AWS`.
pub open spec fn aws_storage() -> MappingView {
    MappingView {
        resource_type: "Storage"@,
        cloud_provider: "AWS"@,
        terraform: ResourceTypeView {
            provider: "aws"@,
            resource_type: "aws_s3_bucket"@,
            attribute_mappings: seq![
                ("bucket_name"@, "bucket"@),
                ("acl"@, "acl"@),
                ("versioning"@, "versioning"@),
                ("encryption"@, "server_side_encryption_configuration"@),
            ],
        },
    }
}

/// The row for `RelationalDatabaseServer` on `Azure`.
pub open spec fn azure_database() -> MappingView {
    MappingView {
        resource_type: "RelationalDatabaseServer"@,
        cloud_provider: "Azure"@,
        terraform: ResourceTypeView {
            provider: "azurerm"@,
            resource_type: "azurerm_mssql_server"@,
            attribute_mappings: seq![
                ("server_name"@, "name"@),
                ("resource_group_name"@, "resource_group_name"@),
                ("location"@, "location"@),
                ("version"@, "version"@),
                ("administrator_login"@, "administrator_login"@),
                ("administrator_login_password"@, "administrator_login_password"@),
                ("minimum_tls_version"@, "minimum_tls_version"@),
                ("public_network_access_enabled"@, "public_network_access_enabled"@),
            ],
        },
    }
}

/// The row for `ContainerOrchestrator` on `Azure`.
pub open spec fn azure_containers() -> MappingView {
    MappingView {
        resource_type: "ContainerOrchestrator"@,
        cloud_provider: "Azure"@,
        terraform: ResourceTypeView {
            provider: "azurerm"@,
            resource_type: "azurerm_kubernetes_cluster"@,
            attribute_mappings: seq![
                ("cluster_name"@, "name"@),
                ("resource_group_name"@, "resource_group_name"@),
                ("location"@, "location"@),
                ("dns_prefix"@, "dns_prefix"@),
                ("kubernetes_version"@, "kubernetes_version"@),
                ("node_count"@, "default_node_pool.node_count"@),
                ("vm_size"@, "default_node_pool.vm_size"@),
            ],
        },
    }
}

/// The row for `RelationalDatabaseServer` on `GCP`.
pub open spec fn gcp_database() -> MappingView {
    MappingView {
        resource_type: "RelationalDatabaseServer"@,
        cloud_provider: "GCP"@,
        terraform: ResourceTypeView {
            provider: "google"@,
            resource_type: "google_sql_database_instance"@,
            attribute_mappings: seq![
                ("instance_name"@, "name"@),
                ("database_version"@, "database_version"@),
                ("region"@, "region"@),
                ("tier"@, "settings.tier"@),
                ("disk_size"@, "settings.disk_size"@),
                ("disk_type"@, "settings.disk_type"@),
                ("availability_type"@, "settings.availability_type"@),
                ("backup_enabled"@, "settings.backup_configuration.enabled"@),
            ],
        },
    }
}

/// The row for `ContainerOrchestrator` on `GCP`.
pub open spec fn gcp_containers() -> MappingView {
    MappingView {
        resource_type: "ContainerOrchestrator"@,
        cloud_provider: "GCP"@,
        terraform: ResourceTypeView {
            provider: "google"@,
            resource_type: "google_container_cluster"@,
            attribute_mappings: seq![
                ("cluster_name"@, "name"@),
                ("location"@, "location"@),
                ("initial_node_count"@, "initial_node_count"@),
                ("node_version"@, "node_version"@),
                ("min_master_version"@, "min_master_version"@),
                ("machine_type"@, "node_config.machine_type"@),
                ("disk_size_gb"@, "node_config.disk_size_gb"@),
            ],
        },
    }
}

/// The table of the resource types that are known.
pub open spec fn standard_rows() -> Seq<MappingView> {
    seq![aws_database(), aws_containers(), aws_storage(), azure_database(), azure_containers(), gcp_database(), gcp_containers()]
}

/// The position of the first row for a kind of resource on a cloud.
pub open spec fn row_for(
    rows: Seq<MappingView>,
    resource_type: Seq<char>,
    cloud_provider: Seq<char>,
    from: int,
) -> Option<int>
    decreases rows.len() - from,
{
    if from < 0 || from >= rows.len() {
        None
    } else if rows[from].resource_type == resource_type && rows[from].cloud_provider
        == cloud_provider {
        Some(from)
    } else {
        row_for(rows, resource_type, cloud_provider, from + 1)
    }
}

/// One pair of texts.
fn pair(a: &str, b: &str) -> (r: (String, String))
    ensures
        r.0@ == a@,
        r.1@ == b@,
{
    (String::from_str(a), String::from_str(b))
}

/// Maps kinds of resources on clouds to Terraform resource types.
pub struct ResourceMapper {
    mappings: Vec<Mapping>,
}

fn make_aws_database() -> (r: Mapping)
    ensures
        r@ == aws_database(),
{
    let mut attributes: Vec<(String, String)> = Vec::new();
    attributes.push(pair("engine", "engine"));
    attributes.push(pair("engine_version", "engine_version"));
    attributes.push(pair("instance_class", "instance_class"));
    attributes.push(pair("allocated_storage", "allocated_storage"));
    attributes.push(pair("storage_type", "storage_type"));
    attributes.push(pair("db_name", "db_name"));
    attributes.push(pair("username", "username"));
    attributes.push(pair("password", "password"));
    attributes.push(pair("port", "port"));
    attributes.push(pair("publicly_accessible", "publicly_accessible"));
    attributes.push(pair("multi_az", "multi_az"));
    attributes.push(pair("backup_retention_period", "backup_retention_period"));
    proof {
        assert(pairs_view(attributes@) =~= aws_database().terraform.attribute_mappings);
    }
    Mapping {
        resource_type: String::from_str("RelationalDatabaseServer"),
        cloud_provider: String::from_str("AWS"),
        terraform: TerraformResourceType {
            provider: String::from_str("aws"),
            resource_type: String::from_str("aws_db_instance"),
            attribute_mappings: attributes,
        },
    }
}

fn make_aws_containers() -> (r: Mapping)
    ensures
        r@ == aws_containers(),
{
    let mut attributes: Vec<(String, String)> = Vec::new();
    attributes.push(pair("cluster_name", "name"));
    attributes.push(pair("capacity_providers", "capacity_providers"));
    attributes.push(pair("default_capacity_provider_strategy", "default_capacity_provider_strategy"));
    proof {
        assert(pairs_view(attributes@) =~= aws_containers().terraform.attribute_mappings);
    }
    Mapping {
        resource_type: String::from_str("ContainerOrchestrator"),
        cloud_provider: String::from_str("AWS"),
        terraform: TerraformResourceType {
            provider: String::from_str("aws"),
            resource_type: String::from_str("aws_ecs_cluster"),
            attribute_mappings: attributes,
        },
    }
}

fn make_aws_storage() -> (r: Mapping)
    ensures
        r@ == aws_storage(),
{
    let mut attributes: Vec<(String, String)> = Vec::new();
    attributes.push(pair("bucket_name", "bucket"));
    attributes.push(pair("acl", "acl"));
    attributes.push(pair("versioning", "versioning"));
    attributes.push(pair("encryption", "server_side_encryption_configuration"));
    proof {
        assert(pairs_view(attributes@) =~= aws_storage().terraform.attribute_mappings);
    }
    Mapping {
        resource_type: String::from_str("Storage"),
        cloud_provider: String::from_str("AWS"),
        terraform: TerraformResourceType {
            provider: String::from_str("aws"),
            resource_type: String::from_str("aws_s3_bucket"),
            attribute_mappings: attributes,
        },
    }
}

fn make_azure_database() -> (r: Mapping)
    ensures
        r@ == azure_database(),
{
    let mut attributes: Vec<(String, String)> = Vec::new();
    attributes.push(pair("server_name", "name"));
    attributes.push(pair("resource_group_name", "resource_group_name"));
    attributes.push(pair("location", "location"));
    attributes.push(pair("version", "version"));
    attributes.push(pair("administrator_login", "administrator_login"));
    attributes.push(pair("administrator_login_password", "administrator_login_password"));
    attributes.push(pair("minimum_tls_version", "minimum_tls_version"));
    attributes.push(pair("public_network_access_enabled", "public_network_access_enabled"));
    proof {
        assert(pairs_view(attributes@) =~= azure_database().terraform.attribute_mappings);
    }
    Mapping {
        resource_type: String::from_str("RelationalDatabaseServer"),
        cloud_provider: String::from_str("Azure"),
        terraform: TerraformResourceType {
            provider: String::from_str("azurerm"),
            resource_type: String::from_str("azurerm_mssql_server"),
            attribute_mappings: attributes,
        },
    }
}

fn make_azure_containers() -> (r: Mapping)
    ensures
        r@ == azure_containers(),
{
    let mut attributes: Vec<(String, String)> = Vec::new();
    attributes.push(pair("cluster_name", "name"));
    attributes.push(pair("resource_group_name", "resource_group_name"));
    attributes.push(pair("location", "location"));
    attributes.push(pair("dns_prefix", "dns_prefix"));
    attributes.push(pair("kubernetes_version", "kubernetes_version"));
    attributes.push(pair("node_count", "default_node_pool.node_count"));
    attributes.push(pair("vm_size", "default_node_pool.vm_size"));
    proof {
        assert(pairs_view(attributes@) =~= azure_containers().terraform.attribute_mappings);
    }
    Mapping {
        resource_type: String::from_str("ContainerOrchestrator"),
        cloud_provider: String::from_str("Azure"),
        terraform: TerraformResourceType {
            provider: String::from_str("azurerm"),
            resource_type: String::from_str("azurerm_kubernetes_cluster"),
            attribute_mappings: attributes,
        },
    }
}

fn make_gcp_database() -> (r: Mapping)
    ensures
        r@ == gcp_database(),
{
    let mut attributes: Vec<(String, String)> = Vec::new();
    attributes.push(pair("instance_name", "name"));
    attributes.push(pair("database_version", "database_version"));
    attributes.push(pair("region", "region"));
    attributes.push(pair("tier", "settings.tier"));
    attributes.push(pair("disk_size", "settings.disk_size"));
    attributes.push(pair("disk_type", "settings.disk_type"));
    attributes.push(pair("availability_type", "settings.availability_type"));
    attributes.push(pair("backup_enabled", "settings.backup_configuration.enabled"));
    proof {
        assert(pairs_view(attributes@) =~= gcp_database().terraform.attribute_mappings);
    }
    Mapping {
        resource_type: String::from_str("RelationalDatabaseServer"),
        cloud_provider: String::from_str("GCP"),
        terraform: TerraformResourceType {
            provider: String::from_str("google"),
            resource_type: String::from_str("google_sql_database_instance"),
            attribute_mappings: attributes,
        },
    }
}

fn make_gcp_containers() -> (r: Mapping)
    ensures
        r@ == gcp_containers(),
{
    let mut attributes: Vec<(String, String)> = Vec::new();
    attributes.push(pair("cluster_name", "name"));
    attributes.push(pair("location", "location"));
    attributes.push(pair("initial_node_count", "initial_node_count"));
    attributes.push(pair("node_version", "node_version"));
    attributes.push(pair("min_master_version", "min_master_version"));
    attributes.push(pair("machine_type", "node_config.machine_type"));
    attributes.push(pair("disk_size_gb", "node_config.disk_size_gb"));
    proof {
        assert(pairs_view(attributes@) =~= gcp_containers().terraform.attribute_mappings);
    }
    Mapping {
        resource_type: String::from_str("ContainerOrchestrator"),
        cloud_provider: String::from_str("GCP"),
        terraform: TerraformResourceType {
            provider: String::from_str("google"),
            resource_type: String::from_str("google_container_cluster"),
            attribute_mappings: attributes,
        },
    }
}

impl ResourceMapper {
    /// The rows of the table.
    pub closed spec fn rows(&self) -> Seq<MappingView> {
        rows_view(self.mappings@)
    }

    /// A mapper with the table of the known resource types.
    pub fn new() -> (r: ResourceMapper)
        ensures
            r.rows() == standard_rows(),
    {
        let mut mappings: Vec<Mapping> = Vec::new();
        mappings.push(make_aws_database());
        mappings.push(make_aws_containers());
        mappings.push(make_aws_storage());
        mappings.push(make_azure_database());
        mappings.push(make_azure_containers());
        mappings.push(make_gcp_database());
        mappings.push(make_gcp_containers());
        proof {
            assert(rows_view(mappings@) =~= standard_rows());
        }
        ResourceMapper { mappings }
    }

    /// The Terraform resource type for a kind of resource on a cloud,
    /// both named exactly as in the table, or nothing where the table has
    /// no row for them.
    pub fn get_terraform_resource_type(&self, resource_type: &str, cloud_provider: &str) -> (r:
        Option<&TerraformResourceType>)
        ensures
            match r {
                Some(t) => match row_for(self.rows(), resource_type@, cloud_provider@, 0) {
                    Some(i) => t@ == self.rows()[i].terraform,
                    None => false,
                },
                None => row_for(self.rows(), resource_type@, cloud_provider@, 0) is None,
            },
    {
        let mut i: usize = 0;
        while i < self.mappings.len()
            invariant
                i <= self.mappings.len(),
                row_for(self.rows(), resource_type@, cloud_provider@, 0) == row_for(
                    self.rows(),
                    resource_type@,
                    cloud_provider@,
                    i as int,
                ),
            decreases self.mappings.len() - i,
        {
            if str_eq(self.mappings[i].resource_type.as_str(), resource_type) && str_eq(
                self.mappings[i].cloud_provider.as_str(),
                cloud_provider,
            ) {
                return Some(&self.mappings[i].terraform);
            }
            i += 1;
        }
        None
    }
}

} // verus!
