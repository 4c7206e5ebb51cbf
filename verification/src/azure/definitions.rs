//! The documents of the Azure Resource Manager: tenants, subscriptions,
//! resource groups and resources. A point in time is held as seconds and
//! nanoseconds since the UNIX epoch.

use vstd::prelude::*;

use crate::common::strmap::StrMap;
use super::metrics::{resource_group_of, get_resource_group};

verus! {

/// A listing, or the error that came instead.
pub enum ResourceResponse<T> {
    Error(ErrorResponse),
    Success(SuccessResponse<T>),
}

/// An error document.
pub struct ErrorResponse {
    pub error: AzureError,
}

/// The error of an error document.
pub struct AzureError {
    pub code: String,
    pub message: String,
}

/// A page of a listing.
pub struct SuccessResponse<T> {
    pub next_link: Option<String>,
    pub count: Option<ResponseAggregation>,
    pub value: Vec<T>,
}

/// The count of a listing.
pub struct ResponseAggregation {
    pub typ: String,
    pub value: i64,
}

/// A tenant.
pub struct Tenant {
    pub country: Option<String>,
    pub country_code: Option<String>,
    pub default_domain: Option<String>,
    pub display_name: Option<String>,
    pub domains: Option<Vec<String>>,
    pub id: String,
    pub tenant_branding_logo_url: Option<String>,
    pub tenant_category: TenantCategory,
    pub tenant_id: String,
    pub tenant_type: Option<String>,
}

/// How a tenant relates to the caller.
#[derive(Clone, Copy, PartialEq, Eq, Structural)]
pub enum TenantCategory {
    Home,
    ManagedBy,
    ProjectedBy,
}

/// A subscription.
pub struct Subscription {
    pub id: String,
    pub subscription_id: String,
    pub tenant_id: String,
    pub display_name: String,
    pub state: String,
    pub subscription_policies: SubscriptionPolicies,
    pub autorization_source: Option<String>,
    pub managed_by_tenants: Vec<ManagedTenant>,
    pub tags: Option<StrMap<String>>,
}

/// The policies of a subscription.
pub struct SubscriptionPolicies {
    pub location_placement_id: String,
    pub quota_id: String,
    pub spending_limit: String,
}

/// A tenant that manages a subscription.
pub struct ManagedTenant {
    pub tenant_id: String,
}

/// A resource group.
pub struct ResourceGroup {
    pub id: String,
    pub location: String,
    pub managed_by: Option<String>,
    pub name: String,
    pub properties: ResourceGroupProperty,
    pub tags: StrMap<String>,
    pub typ: String,
}

/// The properties of a resource group.
pub struct ResourceGroupProperty {
    pub provisioning_state: String,
}

/// A resource.
pub struct Resource {
    pub changed_time: Option<(i64, u32)>,
    pub created_time: Option<(i64, u32)>,
    pub extended_location: Option<ExtendedLocation>,
    pub id: String,
    pub identity: Option<Identity>,
    pub kind: Option<String>,
    pub location: String,
    pub managed_by: Option<String>,
    pub name: Option<String>,
    pub plan: Option<Plan>,
    pub properties: Option<StrMap<String>>,
    pub provisioning_state: Option<String>,
    pub sku: Option<Sku>,
    pub tags: StrMap<String>,
    pub typ: String,
    pub system_data: Option<SystemData>,
}

impl Resource {
    /// The resource group named in the resource's id, or the empty text
    /// when the id names none.
    pub fn get_resource_group(&self) -> (r: String)
        ensures
            r@ == match resource_group_of(self.id@) {
                Some(g) => g,
                None => Seq::empty(),
            },
    {
        match get_resource_group(self.id.as_str()) {
            Some(g) => g,
            None => String::new(),
        }
    }

    /// Two resources are the same resource when their ids are equal.
    pub fn same(&self, other: &Resource) -> (r: bool)
        ensures
            r == (self.id@ == other.id@),
    {
        self.id == other.id
    }
}

/// Where a resource is, besides its region.
pub struct ExtendedLocation {
    pub name: Option<String>,
    pub typ: Option<ExtendedLocationType>,
}

/// The kinds of extended location.
#[derive(Clone, Copy, PartialEq, Eq, Structural)]
pub enum ExtendedLocationType {
    EdgeZone,
}

/// The identity of a resource.
pub struct Identity {
    pub principal_id: Option<String>,
    pub tenant_id: Option<String>,
    pub typ: Option<ResourceIdentityType>,
    pub user_assigned_identities: Option<StrMap<String>>,
}

/// The kinds of resource identity.
#[derive(Clone, Copy, PartialEq, Eq, Structural)]
pub enum ResourceIdentityType {
    /// No identity.
    NoIdentity,
    SystemAssigned,
    UserAssigned,
    SystemAssignedUserAssigned,
}

/// The marketplace plan of a resource.
pub struct Plan {
    pub name: Option<String>,
    pub product: Option<String>,
    pub promotion_code: Option<String>,
    pub publisher: Option<String>,
    pub version: Option<String>,
}

/// The SKU of a resource.
pub struct Sku {
    pub capacity: Option<i32>,
    pub family: Option<String>,
    pub model: Option<String>,
    pub name: String,
    pub size: Option<String>,
    pub tier: String,
}

/// Who made and changed a resource, and when.
pub struct SystemData {
    pub created_by: String,
    pub created_by_type: String,
    pub created_at: (i64, u32),
    pub last_modified_by: String,
    pub last_modified_by_type: String,
    pub last_modified_at: (i64, u32),
}

/// What a listing does after a page.
pub enum PageStep {
    /// Ask for the page at this link next.
    Fetch(String),
    /// The listing is complete.
    Done,
    /// The listing failed with this error.
    Failed(ErrorResponse),
}

/// Takes a page of a listing: an error ends the listing with it;
/// otherwise the page's items join those gathered, and the listing goes
/// on at the page's next link, if it has one.
pub fn take_page<T>(items: &mut Vec<T>, page: ResourceResponse<T>) -> (r: PageStep)
    ensures
        match page {
            ResourceResponse::Error(e) => r == PageStep::Failed(e) && final(items)@ == old(items)@,
            ResourceResponse::Success(s) => final(items)@ == old(items)@ + s.value@ && match s.next_link {
                Some(l) => r == PageStep::Fetch(l),
                None => r == PageStep::Done,
            },
        },
{
    match page {
        ResourceResponse::Error(e) => PageStep::Failed(e),
        ResourceResponse::Success(s) => {
            let mut v = s.value;
            items.append(&mut v);
            match s.next_link {
                Some(l) => PageStep::Fetch(l),
                None => PageStep::Done,
            }
        },
    }
}

} // verus!
