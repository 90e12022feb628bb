use vstd::prelude::*;
use vstd::slice::slice_to_vec;
use vstd::string::*;
use vstd::utf8::encode_utf8;

use crate::cache::{
    lists_exactly, lookup, stored_after_delete, stored_after_set, Cache, StoreModel,
};

verus! {

/// The message of a successful write.
pub const SET_DONE: &'static str = "Set operation successful";

/// The message of a read of a missing key.
pub const KEY_NOT_FOUND: &'static str = "Key not found";

/// The message of a successful delete.
pub const DELETE_DONE: &'static str = "Delete operation successful";

/// The message of a successful cluster clear.
pub const CLEAR_CLUSTER_DONE: &'static str = "Clear cluster operation successful";

/// The message of a successful clear of the whole cache.
pub const CLEAR_ALL_DONE: &'static str = "Clear all operation successful";

/// The body of every reply: whether the request succeeded, and its data.
#[derive(Debug, Clone, PartialEq, Eq)]
pub struct ApiResponse<T> {
    pub is_success: bool,
    pub data: T,
}

impl<T> ApiResponse<T> {
    /// A successful reply carrying `data`.
    pub fn ok(data: T) -> (r: Self)
        ensures
            r.is_success,
            r.data == data,
    {
        ApiResponse { is_success: true, data }
    }

    /// A failed reply carrying `data`.
    pub fn fail(data: T) -> (r: Self)
        ensures
            !r.is_success,
            r.data == data,
    {
        ApiResponse { is_success: false, data }
    }
}

/// The body of a write request.
#[derive(Debug, Clone, PartialEq, Eq)]
pub struct SetRequest {
    pub cluster: String,
    pub key: String,
    pub value: String,
}

/// The HTTP status of a reply.
#[derive(Debug, Clone, Copy, PartialEq, Eq)]
pub enum Status {
    Success,
    NotFound,
}

/// What a reply carries.
#[derive(Debug, Clone, PartialEq, Eq)]
pub enum Payload {
    Text(&'static str),
    Bytes(Vec<u8>),
    Names(Vec<String>),
    Port(u16),
}

/// A reply: its status and its body.
#[derive(Debug, Clone, PartialEq, Eq)]
pub struct Reply {
    pub status: Status,
    pub body: ApiResponse<Payload>,
}

/// A successful reply with status `Ok` carrying `payload`.
pub open spec fn ok_reply(r: Reply, payload: Payload) -> bool {
    &&& r.status == Status::Success
    &&& r.body.is_success
    &&& r.body.data == payload
}

/// `POST /api/set`: stores the UTF-8 bytes of the value under the key in
/// the cluster.
pub fn set(cache: &mut Cache, payload: SetRequest) -> (r: Reply)
    requires
        old(cache).well_formed(),
    ensures
        final(cache).well_formed(),
        final(cache)@ == stored_after_set(
            old(cache)@,
            payload.cluster@,
            payload.key@,
            encode_utf8(payload.value@),
        ),
        final(cache).port() == old(cache).port(),
        ok_reply(r, Payload::Text(SET_DONE)),
{
    let SetRequest { cluster, key, value } = payload;
    let bytes = slice_to_vec(value.as_str().as_bytes());
    cache.set(cluster, key, bytes);
    Reply { status: Status::Success, body: ApiResponse::ok(Payload::Text(SET_DONE)) }
}

/// `GET /api/get/{cluster}/{key}`: the stored bytes, or a failure with
/// status `NotFound` when the cluster or the key is missing.
pub fn get(cache: &Cache, cluster: String, key: String) -> (r: Reply)
    requires
        cache.well_formed(),
    ensures
        match lookup(cache@, cluster@, key@) {
            Some(v) => r.status == Status::Success && r.body.is_success && (r.body.data matches Payload::Bytes(
                b,
            ) && b@ == v),
            None => r.status == Status::NotFound && !r.body.is_success && r.body.data
                == Payload::Text(KEY_NOT_FOUND),
        },
{
    match cache.get(cluster.as_str(), key.as_str()) {
        Some(value) => Reply { status: Status::Success, body: ApiResponse::ok(Payload::Bytes(value)) },
        None => Reply {
            status: Status::NotFound,
            body: ApiResponse::fail(Payload::Text(KEY_NOT_FOUND)),
        },
    }
}

/// `DELETE /api/delete/{cluster}/{key}`: removes the key; succeeds whether
/// or not it was there.
pub fn delete(cache: &mut Cache, cluster: String, key: String) -> (r: Reply)
    requires
        old(cache).well_formed(),
    ensures
        final(cache).well_formed(),
        final(cache)@ == stored_after_delete(old(cache)@, cluster@, key@),
        final(cache).port() == old(cache).port(),
        ok_reply(r, Payload::Text(DELETE_DONE)),
{
    cache.delete(cluster.as_str(), key.as_str());
    Reply { status: Status::Success, body: ApiResponse::ok(Payload::Text(DELETE_DONE)) }
}

/// `DELETE /api/clear_cluster/{cluster}`: removes the cluster and its keys.
pub fn clear_cluster(cache: &mut Cache, cluster: String) -> (r: Reply)
    requires
        old(cache).well_formed(),
    ensures
        final(cache).well_formed(),
        final(cache)@ == old(cache)@.remove(cluster@),
        final(cache).port() == old(cache).port(),
        ok_reply(r, Payload::Text(CLEAR_CLUSTER_DONE)),
{
    cache.clear_cluster(cluster.as_str());
    Reply { status: Status::Success, body: ApiResponse::ok(Payload::Text(CLEAR_CLUSTER_DONE)) }
}

/// `DELETE /api/clear_all`: removes every cluster.
pub fn clear_all(cache: &mut Cache) -> (r: Reply)
    requires
        old(cache).well_formed(),
    ensures
        final(cache).well_formed(),
        final(cache)@ == StoreModel::empty(),
        final(cache).port() == old(cache).port(),
        ok_reply(r, Payload::Text(CLEAR_ALL_DONE)),
{
    cache.clear_all();
    Reply { status: Status::Success, body: ApiResponse::ok(Payload::Text(CLEAR_ALL_DONE)) }
}

/// `GET /api/get_clusters`: the names of all clusters.
pub fn get_all_clusters(cache: &Cache) -> (r: Reply)
    requires
        cache.well_formed(),
    ensures
        r.status == Status::Success,
        r.body.is_success,
        r.body.data matches Payload::Names(names) && lists_exactly(names@, cache@.dom()),
{
    let names = cache.get_all_clusters();
    Reply { status: Status::Success, body: ApiResponse::ok(Payload::Names(names)) }
}

/// `GET /api/port`: the port that the cache reports.
pub fn get_port(cache: &Cache) -> (r: Reply)
    ensures
        ok_reply(r, Payload::Port(cache.port())),
{
    let port = cache.get_default_port();
    Reply { status: Status::Success, body: ApiResponse::ok(Payload::Port(port)) }
}

} // verus!
