//! The records that the variable space is built from: blueprints, stacks
//! and their resources.

use vstd::prelude::*;
use crate::value::{JsonValue};

verus! {

/// The kind of a resource.
#[derive(Debug, Clone, PartialEq, Eq)]
pub struct ResourceType {
    pub id: String,
    pub name: String,
    pub category: String,
}

/// The cloud that a resource runs on.
#[derive(Debug, Clone, PartialEq, Eq)]
pub struct CloudProvider {
    pub id: String,
    pub name: String,
    pub display_name: String,
}

/// A resource of a blueprint.
#[derive(Debug, PartialEq, Eq)]
pub struct BlueprintResource {
    pub id: String,
    pub name: String,
    pub description: Option<String>,
    pub resource_type: ResourceType,
    pub cloud_provider: CloudProvider,
    pub configuration: JsonValue,
    pub cloud_specific_properties: Vec<(String, JsonValue)>,
}

/// A blueprint: a named set of resources and the clouds it supports.
#[derive(Debug, PartialEq, Eq)]
pub struct Blueprint {
    pub id: String,
    pub name: String,
    pub description: Option<String>,
    pub resources: Vec<BlueprintResource>,
    pub supported_cloud_providers: Vec<CloudProvider>,
}

/// A resource of a stack.
#[derive(Debug, PartialEq, Eq)]
pub struct StackResource {
    pub id: String,
    pub name: String,
    pub description: Option<String>,
    pub resource_type: ResourceType,
    pub cloud_provider: CloudProvider,
    pub configuration: Vec<(String, JsonValue)>,
}

/// A stack: a deployment with its resources and, where known, the
/// blueprint it was made from.
#[derive(Debug, PartialEq, Eq)]
pub struct Stack {
    pub id: String,
    pub name: String,
    pub description: Option<String>,
    pub cloud_name: String,
    pub stack_type: String,
    pub stack_resources: Vec<StackResource>,
    pub blueprint: Option<Blueprint>,
}

/// Every value of `pairs` is well formed.
pub open spec fn values_wf(pairs: Seq<(String, JsonValue)>) -> bool {
    forall|i: int| 0 <= i < pairs.len() ==> (#[trigger] pairs[i]).1@.wf()
}

impl BlueprintResource {
    /// The values that the resource carries are well formed.
    pub open spec fn wf(self) -> bool {
        self.configuration@.wf() && values_wf(self.cloud_specific_properties@)
    }
}

impl Blueprint {
    /// The values that the resources carry are well formed.
    pub open spec fn wf(self) -> bool {
        forall|i: int| 0 <= i < self.resources@.len() ==> (#[trigger] self.resources@[i]).wf()
    }
}

impl StackResource {
    /// The values that the resource carries are well formed.
    pub open spec fn wf(self) -> bool {
        values_wf(self.configuration@)
    }
}

impl Stack {
    /// The values that the resources carry are well formed.
    pub open spec fn wf(self) -> bool {
        forall|i: int|
            0 <= i < self.stack_resources@.len() ==> (#[trigger] self.stack_resources@[i]).wf()
    }
}

} // verus!
