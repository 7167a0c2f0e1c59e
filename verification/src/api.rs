use vstd::prelude::*;

use crate::dispatch::{Dispatch, DispatchView, Registry, RegistryView};
use crate::error::ApiError;
use crate::ident::is_random_form;
use crate::reply::V2Reply;
use crate::resource::{RecordView, Resource, ResourceLink, ResourceRecord, ResourceType};
use crate::store::{records_view, Resources, StoreView};
use crate::update::{plan_update, planned, UpdateRequest};

verus! {

/// The status that every failed request is answered with.
pub const STATUS_FAILED: u16 = 500;

impl ApiError {
    /// The response to a failed request: the failure status, and an envelope
    /// with the error's message and no data.
    pub fn into_response<T>(self) -> (r: (u16, V2Reply<T>))
        ensures
            r.0 == STATUS_FAILED,
            r.1.data@.len() == 0,
            r.1.errors@.len() == 1,
            r.1.errors@[0]@ == self.text(),
    {
        (STATUS_FAILED, V2Reply::error(self.message()))
    }
}

/// Lists every resource.
pub fn get_root(store: &Resources) -> (r: V2Reply<ResourceRecord>)
    ensures
        records_view(r.data@) == store@.records,
        r.errors@.len() == 0,
{
    V2Reply::list(store.get_resources())
}

/// Lists the resources of one type.
pub fn get_resource(store: &Resources, rtype: ResourceType) -> (r: V2Reply<ResourceRecord>)
    ensures
        records_view(r.data@) == store@.of_type(rtype),
        r.errors@.len() == 0,
{
    V2Reply::list(store.get_resources_by_type(rtype))
}

/// Creates a resource of the declared type under a fresh id and answers with
/// its link. A payload of another type than the declared one, or one that
/// breaks the rules of its type, is rejected with `Validation`.
pub fn post_resource(store: &mut Resources, rtype: ResourceType, obj: Resource) -> (r: Result<
    V2Reply<ResourceLink>,
    ApiError,
>)
    requires
        old(store).wf(),
    ensures
        final(store).wf(),
        match r {
            Ok(reply) => {
                &&& obj.body.spec_rtype() == rtype
                &&& obj.body.valid()
                &&& reply.errors@.len() == 0
                &&& reply.data@.len() == 1
                &&& reply.data@[0].rtype == rtype
                &&& is_random_form(reply.data@[0].rid)
                &&& !old(store)@.has(reply.data@[0].rid)
                &&& final(store)@ == old(store)@.insert(
                    RecordView { id: reply.data@[0].rid, obj: obj@ },
                )
            },
            Err(e) => {
                &&& final(store)@ == old(store)@
                &&& (obj.body.spec_rtype() != rtype || !obj.body.valid()) ==> e
                    == ApiError::Validation
                &&& (obj.body.spec_rtype() == rtype && obj.body.valid()) ==> exists|id: u128|
                    e == ApiError::Conflict(id) && old(store)@.has(id)
            },
        },
{
    if obj.body.rtype() != rtype {
        return Err(ApiError::Validation);
    }
    match store.add_resource(obj) {
        Ok(link) => Ok(V2Reply::ok(link)),
        Err(e) => Err(e),
    }
}

/// Answers with one resource, looked up by type and id.
pub fn get_resource_id(store: &Resources, rtype: ResourceType, id: u128) -> (r: Result<
    V2Reply<ResourceRecord>,
    ApiError,
>)
    requires
        store.wf(),
    ensures
        match r {
            Ok(reply) => {
                &&& reply.errors@.len() == 0
                &&& reply.data@.len() == 1
                &&& store@.lookup(ResourceLink { rid: id, rtype }) == Some(reply.data@[0]@)
            },
            Err(e) => store@.lookup(ResourceLink { rid: id, rtype }) is None && e
                == ApiError::NotFound(id),
        },
{
    match store.get_resource(rtype, &id) {
        Ok(rec) => Ok(V2Reply::ok(rec)),
        Err(e) => Err(e),
    }
}

/// What an update request leads to: the command to publish, if any, with the
/// client that has to publish it, and the resource to answer with.
#[derive(Debug, PartialEq, Eq)]
pub struct PutOutcome {
    pub dispatch: Option<Dispatch>,
    pub reply: V2Reply<ResourceRecord>,
}

pub struct PutView {
    pub dispatch: Option<DispatchView>,
    pub record: RecordView,
}

/// The outcome of an update request: the planned command, routed to the
/// client that owns its target, and the resource as the store holds it. The
/// request fails as the plan does, and with `TargetNotFound` where no client
/// owns the target of the planned command.
pub open spec fn put_outcome(
    s: StoreView,
    routes: RegistryView,
    link: ResourceLink,
    req: UpdateRequest,
) -> Result<PutView, ApiError> {
    match planned(s, link, req) {
        Err(e) => Err(e),
        Ok(None) => Ok(PutView { dispatch: None, record: s.lookup(link)->0 }),
        Ok(Some(command)) => match routes.owner(command.target) {
            None => Err(ApiError::TargetNotFound),
            Some(client) => Ok(
                PutView {
                    dispatch: Some(DispatchView { client, command }),
                    record: s.lookup(link)->0,
                },
            ),
        },
    }
}

/// Handles an update request for the resource of the given type and id. The
/// request is turned into at most one broker command; the store is not
/// written, since the broker's confirmation will bring the new state.
pub fn put_resource_id(
    store: &Resources,
    routes: &Registry,
    rtype: ResourceType,
    id: u128,
    req: &UpdateRequest,
) -> (r: Result<PutOutcome, ApiError>)
    requires
        store.wf(),
    ensures
        match r {
            Ok(out) => {
                &&& put_outcome(store@, routes@, ResourceLink { rid: id, rtype }, *req) matches Ok(
                    view,
                )
                &&& view.dispatch == match out.dispatch {
                    Some(d) => Some(d@),
                    None => None,
                }
                &&& out.reply.errors@.len() == 0
                &&& out.reply.data@.len() == 1
                &&& out.reply.data@[0]@ == view.record
            },
            Err(e) => put_outcome(store@, routes@, ResourceLink { rid: id, rtype }, *req) == Err::<
                PutView,
                ApiError,
            >(e),
        },
{
    let link = rtype.link_to(id);
    let command = match plan_update(store, &link, req) {
        Ok(c) => c,
        Err(e) => {
            return Err(e);
        },
    };
    let dispatch = match command {
        Some(c) => match routes.send_set(c.target.as_str(), c.payload) {
            Ok(d) => Some(d),
            Err(e) => {
                return Err(e);
            },
        },
        None => None,
    };
    match store.get_link(&link) {
        Ok(rec) => Ok(PutOutcome { dispatch, reply: V2Reply::ok(rec) }),
        Err(e) => Err(e),
    }
}

/// Removes the resource of the given type and id, and answers with the link
/// of what was removed.
pub fn delete_resource_id(store: &mut Resources, rtype: ResourceType, id: u128) -> (r: Result<
    V2Reply<ResourceLink>,
    ApiError,
>)
    requires
        old(store).wf(),
    ensures
        final(store).wf(),
        match r {
            Ok(reply) => {
                &&& old(store)@.lookup(ResourceLink { rid: id, rtype }) is Some
                &&& final(store)@ == old(store)@.remove(id)
                &&& reply.errors@.len() == 0
                &&& reply.data@ == seq![ResourceLink { rid: id, rtype }]
            },
            Err(e) => {
                &&& old(store)@.lookup(ResourceLink { rid: id, rtype }) is None
                &&& final(store)@ == old(store)@
                &&& e == ApiError::NotFound(id)
            },
        },
{
    let link = rtype.link_to(id);
    match store.delete(&link) {
        Ok(_) => Ok(V2Reply::ok(link)),
        Err(e) => Err(e),
    }
}

} // verus!
