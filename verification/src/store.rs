use vstd::prelude::*;

use crate::error::ApiError;
use crate::ident::{derived, derived_id, is_random_form, random_id};
use crate::resource::{
    AuxData, AuxView, Body, Device, Metadata, MetadataView, RecordView, Resource, ResourceLink,
    ResourceRecord, ResourceType, ResourceView,
};
use crate::text::str_eq;

verus! {

/// The broker detail kept for one resource.
#[derive(Debug, PartialEq, Eq)]
pub struct AuxEntry {
    pub id: u128,
    pub data: AuxData,
}

pub struct AuxEntryView {
    pub id: u128,
    pub data: AuxView,
}

impl View for AuxEntry {
    type V = AuxEntryView;

    open spec fn view(&self) -> AuxEntryView {
        AuxEntryView { id: self.id, data: self.data@ }
    }
}

impl Clone for AuxEntry {
    fn clone(&self) -> (a: Self)
        ensures
            a == *self,
    {
        AuxEntry { id: self.id, data: self.data.clone() }
    }
}

/// The content of a store: its records in the order they were added, and the
/// table of broker detail.
pub struct StoreView {
    pub records: Seq<RecordView>,
    pub aux: Seq<AuxEntryView>,
}

impl StoreView {
    pub open spec fn empty() -> StoreView {
        StoreView { records: Seq::empty(), aux: Seq::empty() }
    }

    /// Some record has this id.
    pub open spec fn has(self, id: u128) -> bool {
        exists|i: int| 0 <= i < self.records.len() && (#[trigger] self.records[i]).id == id
    }

    /// The place of the record with this id, where there is one.
    pub open spec fn index_of(self, id: u128) -> int {
        choose|i: int| 0 <= i < self.records.len() && (#[trigger] self.records[i]).id == id
    }

    /// The record with this id, where there is one.
    pub open spec fn record(self, id: u128) -> RecordView {
        self.records[self.index_of(id)]
    }

    /// What a link resolves to: the record with the link's id, if it is of the
    /// link's type.
    pub open spec fn lookup(self, link: ResourceLink) -> Option<RecordView> {
        if self.has(link.rid) && self.record(link.rid).rtype() == link.rtype {
            Some(self.record(link.rid))
        } else {
            None
        }
    }

    /// Broker detail is kept for this id.
    pub open spec fn has_aux(self, id: u128) -> bool {
        exists|i: int| 0 <= i < self.aux.len() && (#[trigger] self.aux[i]).id == id
    }

    pub open spec fn aux_index_of(self, id: u128) -> int {
        choose|i: int| 0 <= i < self.aux.len() && (#[trigger] self.aux[i]).id == id
    }

    /// The broker detail kept for this id.
    pub open spec fn aux_of(self, id: u128) -> Option<AuxView> {
        if self.has_aux(id) {
            Some(self.aux[self.aux_index_of(id)].data)
        } else {
            None
        }
    }

    /// No id occurs twice, broker detail is kept only for resources that exist,
    /// and every payload obeys the rules of its type.
    pub open spec fn wf(self) -> bool {
        &&& forall|i: int, j: int|
            0 <= i < j < self.records.len() ==> (#[trigger] self.records[i]).id != (
            #[trigger] self.records[j]).id
        &&& forall|i: int, j: int|
            0 <= i < j < self.aux.len() ==> (#[trigger] self.aux[i]).id != (
            #[trigger] self.aux[j]).id
        &&& forall|i: int| 0 <= i < self.aux.len() ==> self.has((#[trigger] self.aux[i]).id)
        &&& forall|i: int|
            0 <= i < self.records.len() ==> (#[trigger] self.records[i]).obj.body.valid()
    }

    /// The store with one more record at its end.
    pub open spec fn insert(self, rec: RecordView) -> StoreView {
        StoreView { records: self.records.push(rec), aux: self.aux }
    }

    /// The store without the record of this id and without its broker detail.
    pub open spec fn remove(self, id: u128) -> StoreView {
        StoreView {
            records: self.records.remove(self.index_of(id)),
            aux: if self.has_aux(id) {
                self.aux.remove(self.aux_index_of(id))
            } else {
                self.aux
            },
        }
    }

    /// The store with this broker detail for the id, in place of what was kept
    /// for it before.
    pub open spec fn with_aux(self, id: u128, data: AuxView) -> StoreView {
        StoreView {
            records: self.records,
            aux: if self.has_aux(id) {
                self.aux.update(self.aux_index_of(id), AuxEntryView { id, data })
            } else {
                self.aux.push(AuxEntryView { id, data })
            },
        }
    }

    /// The store with another body for the record of this id.
    pub open spec fn with_body(self, id: u128, body: Body) -> StoreView {
        StoreView {
            records: self.records.update(
                self.index_of(id),
                RecordView {
                    id,
                    obj: ResourceView { metadata: self.record(id).obj.metadata, body },
                },
            ),
            aux: self.aux,
        }
    }

    /// Some record of this type carries this name.
    pub open spec fn has_named(self, rtype: ResourceType, name: Seq<char>) -> bool {
        exists|i: int| 0 <= i < self.records.len() && #[trigger] self.named_at(i, rtype, name)
    }

    /// The record at place `i` is of this type and carries this name.
    pub open spec fn named_at(self, i: int, rtype: ResourceType, name: Seq<char>) -> bool {
        self.records[i].rtype() == rtype && self.records[i].obj.metadata.name == name
    }

    /// The place of the first record of this type that carries this name.
    #[verifier::opaque]
    pub open spec fn first_named(self, rtype: ResourceType, name: Seq<char>) -> int {
        choose|i: int|
            0 <= i < self.records.len() && #[trigger] self.named_at(i, rtype, name) && forall|
                j: int,
            | 0 <= j < i ==> !#[trigger] self.named_at(j, rtype, name)
    }

    /// Some record is of this type.
    pub open spec fn has_type(self, rtype: ResourceType) -> bool {
        exists|i: int| 0 <= i < self.records.len() && (#[trigger] self.records[i]).rtype() == rtype
    }

    /// The store has its bridge home: it was initialised.
    pub open spec fn is_initialized(self) -> bool {
        self.has_type(ResourceType::BridgeHome)
    }

    /// Why a store cannot be initialised under the two given ids, if it
    /// cannot: it was initialised before, or one of the ids is taken.
    pub open spec fn init_error(self, device_id: u128, home_id: u128) -> Option<ApiError> {
        if self.is_initialized() {
            Some(ApiError::AlreadyInitialized)
        } else if self.has(device_id) {
            Some(ApiError::Conflict(device_id))
        } else if home_id == device_id || self.has(home_id) {
            Some(ApiError::Conflict(home_id))
        } else {
            None
        }
    }

    /// The store after its initialisation: the device that stands for the
    /// bridge itself, and the bridge home, both under the bridge's name.
    pub open spec fn initialized(self, device_id: u128, home_id: u128, name: Seq<char>) -> StoreView {
        self.insert(
            RecordView {
                id: device_id,
                obj: ResourceView {
                    metadata: MetadataView { name },
                    body: Body::Device(Device { stale: false }),
                },
            },
        ).insert(
            RecordView {
                id: home_id,
                obj: ResourceView { metadata: MetadataView { name }, body: Body::BridgeHome },
            },
        )
    }

    /// The records of one type, in store order.
    pub open spec fn of_type(self, rtype: ResourceType) -> Seq<RecordView> {
        self.records.filter(|r: RecordView| r.rtype() == rtype)
    }
}

/// The views of a sequence of records.
pub open spec fn records_view(s: Seq<ResourceRecord>) -> Seq<RecordView> {
    s.map_values(|r: ResourceRecord| r@)
}

/// The views of a sequence of broker detail entries.
pub open spec fn aux_view(s: Seq<AuxEntry>) -> Seq<AuxEntryView> {
    s.map_values(|a: AuxEntry| a@)
}

/// The resource store: every resource of the bridge under its id, and the
/// table of broker detail beside it.
pub struct Resources {
    records: Vec<ResourceRecord>,
    aux: Vec<AuxEntry>,
}

impl View for Resources {
    type V = StoreView;

    closed spec fn view(&self) -> StoreView {
        StoreView { records: records_view(self.records@), aux: aux_view(self.aux@) }
    }
}

impl Resources {
    /// The store's invariant.
    pub open spec fn wf(&self) -> bool {
        self@.wf()
    }

    /// An empty store.
    pub fn new() -> (s: Self)
        ensures
            s.wf(),
            s@ == StoreView::empty(),
    {
        let s = Resources { records: Vec::new(), aux: Vec::new() };
        assert(s@.records =~= Seq::empty());
        assert(s@.aux =~= Seq::empty());
        s
    }

    /// The number of records.
    pub fn len(&self) -> (n: usize)
        ensures
            n == self@.records.len(),
    {
        self.records.len()
    }

    fn position(&self, id: u128) -> (r: Option<usize>)
        requires
            self.wf(),
        ensures
            match r {
                Some(i) => i < self@.records.len() && self@.has(id) && self@.index_of(id) == i,
                None => !self@.has(id),
            },
    {
        let mut i: usize = 0;
        while i < self.records.len()
            invariant
                self.wf(),
                i <= self.records.len(),
                forall|j: int| 0 <= j < i ==> (#[trigger] self@.records[j]).id != id,
            decreases self.records.len() - i,
        {
            if self.records[i].id == id {
                assert(self@.records[i as int].id == id);
                return Some(i);
            }
            i += 1;
        }
        None
    }

    fn aux_position(&self, id: u128) -> (r: Option<usize>)
        requires
            self.wf(),
        ensures
            match r {
                Some(i) => i < self@.aux.len() && self@.has_aux(id) && self@.aux_index_of(id) == i,
                None => !self@.has_aux(id),
            },
    {
        let mut i: usize = 0;
        while i < self.aux.len()
            invariant
                self.wf(),
                i <= self.aux.len(),
                forall|j: int| 0 <= j < i ==> (#[trigger] self@.aux[j]).id != id,
            decreases self.aux.len() - i,
        {
            if self.aux[i].id == id {
                assert(self@.aux[i as int].id == id);
                return Some(i);
            }
            i += 1;
        }
        None
    }

    pub(crate) fn record(&self, i: usize) -> (rec: &ResourceRecord)
        requires
            i < self@.records.len(),
        ensures
            rec@ == self@.records[i as int],
    {
        &self.records[i]
    }

    /// The record at a place of the store's order, if the store has so many.
    pub fn record_at(&self, i: usize) -> (r: Option<&ResourceRecord>)
        ensures
            match r {
                Some(rec) => i < self@.records.len() && rec@ == self@.records[i as int],
                None => i >= self@.records.len(),
            },
    {
        if i < self.records.len() {
            Some(&self.records[i])
        } else {
            None
        }
    }

    /// The number of resources for which broker detail is kept.
    pub fn aux_len(&self) -> (n: usize)
        ensures
            n == self@.aux.len(),
    {
        self.aux.len()
    }

    pub(crate) fn aux_entry(&self, i: usize) -> (entry: &AuxEntry)
        requires
            i < self@.aux.len(),
        ensures
            entry@ == self@.aux[i as int],
    {
        &self.aux[i]
    }

    /// The broker detail at a place of the table, if the table has so many.
    pub fn aux_at(&self, i: usize) -> (r: Option<&AuxEntry>)
        ensures
            match r {
                Some(entry) => i < self@.aux.len() && entry@ == self@.aux[i as int],
                None => i >= self@.aux.len(),
            },
    {
        if i < self.aux.len() {
            Some(&self.aux[i])
        } else {
            None
        }
    }

    /// Builds a store from records and broker detail, if they obey the
    /// store's invariant: `None` where an id occurs twice, a payload breaks
    /// the rules of its type, or broker detail belongs to no record.
    pub fn from_parts(records: Vec<ResourceRecord>, aux: Vec<AuxEntry>) -> (r: Option<Resources>)
        ensures
            match r {
                Some(s) => s.wf() && s@ == (StoreView {
                    records: records_view(records@),
                    aux: aux_view(aux@),
                }),
                None => !(StoreView { records: records_view(records@), aux: aux_view(aux@) }).wf(),
            },
    {
        let ghost full = StoreView { records: records_view(records@), aux: aux_view(aux@) };
        let mut store = Resources::new();
        let mut i: usize = 0;
        while i < records.len()
            invariant
                i <= records.len(),
                full == (StoreView { records: records_view(records@), aux: aux_view(aux@) }),
                store.wf(),
                store@.records =~= full.records.take(i as int),
                store@.aux =~= Seq::<AuxEntryView>::empty(),
            decreases records.len() - i,
        {
            let ghost before = store@;
            let id = records[i].id;
            let obj = records[i].obj.clone();
            match store.add_resource_with_id(id, obj) {
                Ok(_) => {
                    proof {
                        assert(full.records.take(i + 1) =~= full.records.take(i as int).push(
                            full.records[i as int],
                        ));
                    }
                },
                Err(_) => {
                    proof {
                        if full.wf() {
                            assert(full.records[i as int].obj.body.valid());
                            let k = before.index_of(id);
                            assert(before.records[k] == full.records[k]);
                            assert(full.records[k].id == full.records[i as int].id);
                        }
                    }
                    return None;
                },
            }
            i += 1;
        }
        assert(full.records.take(i as int) =~= full.records);
        let mut j: usize = 0;
        while j < aux.len()
            invariant
                j <= aux.len(),
                full == (StoreView { records: records_view(records@), aux: aux_view(aux@) }),
                store.wf(),
                store@.records == full.records,
                store@.aux =~= full.aux.take(j as int),
            decreases aux.len() - j,
        {
            let ghost before = store@;
            let id = aux[j].id;
            if store.get_aux(id).is_some() {
                proof {
                    if full.wf() {
                        let k = before.aux_index_of(id);
                        assert(before.aux[k] == full.aux[k]);
                        assert(full.aux[k].id == full.aux[j as int].id);
                    }
                }
                return None;
            }
            let data = aux[j].data.clone();
            match store.set_aux(id, data) {
                Ok(_) => {
                    proof {
                        assert(full.aux.take(j + 1) =~= full.aux.take(j as int).push(
                            full.aux[j as int],
                        ));
                    }
                },
                Err(_) => {
                    proof {
                        if full.wf() {
                            assert(full.has(full.aux[j as int].id));
                        }
                    }
                    return None;
                },
            }
            j += 1;
        }
        assert(full.aux.take(j as int) =~= full.aux);
        Some(store)
    }

    /// Whether some record is of the given type.
    pub fn has_type(&self, rtype: ResourceType) -> (b: bool)
        ensures
            b == self@.has_type(rtype),
    {
        let mut i: usize = 0;
        while i < self.records.len()
            invariant
                i <= self.records.len(),
                forall|j: int| 0 <= j < i ==> (#[trigger] self@.records[j]).rtype() != rtype,
            decreases self.records.len() - i,
        {
            if self.records[i].obj.body.rtype() == rtype {
                assert(self@.records[i as int].rtype() == rtype);
                return true;
            }
            i += 1;
        }
        false
    }

    /// Initialises the store under the two given ids: adds the device that
    /// stands for the bridge itself, and the bridge home. Fails with
    /// `AlreadyInitialized` where the store has a bridge home, and with
    /// `Conflict` where one of the ids is taken; the store then stays as it
    /// was.
    pub fn init_with_ids(&mut self, device_id: u128, home_id: u128, name: &str) -> (r: Result<
        (),
        ApiError,
    >)
        requires
            old(self).wf(),
        ensures
            final(self).wf(),
            match r {
                Ok(_) => old(self)@.init_error(device_id, home_id) is None && final(self)@ == old(
                    self,
                )@.initialized(device_id, home_id, name@),
                Err(e) => old(self)@.init_error(device_id, home_id) == Some(e) && final(self)@
                    == old(self)@,
            },
    {
        if self.has_type(ResourceType::BridgeHome) {
            return Err(ApiError::AlreadyInitialized);
        }
        if self.contains(device_id) {
            return Err(ApiError::Conflict(device_id));
        }
        if home_id == device_id || self.contains(home_id) {
            return Err(ApiError::Conflict(home_id));
        }
        let device = Resource {
            metadata: Metadata { name: name.to_owned() },
            body: Body::Device(Device { stale: false }),
        };
        let home = Resource { metadata: Metadata { name: name.to_owned() }, body: Body::BridgeHome };
        let ghost device_rec = RecordView { id: device_id, obj: device@ };
        let first = self.add_resource_with_id(device_id, device);
        assert(first is Ok);
        proof {
            lemma_insert_has(old(self)@, device_rec, home_id);
        }
        let second = self.add_resource_with_id(home_id, home);
        assert(second is Ok);
        Ok(())
    }

    /// Initialises the store for the bridge of the given identity, such as
    /// its hardware address: the ids of the bootstrap resources are derived
    /// from it, so that they are the same at every start.
    pub fn init(&mut self, bridge_id: &str) -> (r: Result<(), ApiError>)
        requires
            old(self).wf(),
        ensures
            final(self).wf(),
            match r {
                Ok(_) => {
                    &&& old(self)@.init_error(
                        derived(ResourceType::Device, bridge_id@),
                        derived(ResourceType::BridgeHome, bridge_id@),
                    ) is None
                    &&& final(self)@ == old(self)@.initialized(
                        derived(ResourceType::Device, bridge_id@),
                        derived(ResourceType::BridgeHome, bridge_id@),
                        bridge_id@,
                    )
                },
                Err(e) => {
                    &&& old(self)@.init_error(
                        derived(ResourceType::Device, bridge_id@),
                        derived(ResourceType::BridgeHome, bridge_id@),
                    ) == Some(e)
                    &&& final(self)@ == old(self)@
                },
            },
    {
        let device_id = derived_id(ResourceType::Device, bridge_id);
        let home_id = derived_id(ResourceType::BridgeHome, bridge_id);
        self.init_with_ids(device_id, home_id, bridge_id)
    }

    /// The link to the bridge home: to the first record of that type. Fails
    /// with `NotInitialized` where the store has none yet.
    pub fn bridge_home(&self) -> (r: Result<ResourceLink, ApiError>)
        ensures
            match r {
                Ok(link) => {
                    &&& self@.is_initialized()
                    &&& link.rtype == ResourceType::BridgeHome
                    &&& exists|i: int|
                        0 <= i < self@.records.len() && (#[trigger] self@.records[i]).link() == link
                            && forall|j: int|
                            0 <= j < i ==> (#[trigger] self@.records[j]).rtype()
                                != ResourceType::BridgeHome
                },
                Err(e) => !self@.is_initialized() && e == ApiError::NotInitialized,
            },
    {
        let mut i: usize = 0;
        while i < self.records.len()
            invariant
                i <= self.records.len(),
                forall|j: int|
                    0 <= j < i ==> (#[trigger] self@.records[j]).rtype()
                        != ResourceType::BridgeHome,
            decreases self.records.len() - i,
        {
            if self.records[i].obj.body.rtype() == ResourceType::BridgeHome {
                assert(self@.records[i as int].rtype() == ResourceType::BridgeHome);
                return Ok(self.records[i].link());
            }
            i += 1;
        }
        Err(ApiError::NotInitialized)
    }

    /// Whether a record has this id.
    pub fn contains(&self, id: u128) -> (b: bool)
        requires
            self.wf(),
        ensures
            b == self@.has(id),
    {
        self.position(id).is_some()
    }

    /// Resolves a link: the record with the link's id, if it is of the link's
    /// type; `NotFound` with the id otherwise, also for a link left dangling
    /// by a deletion.
    pub fn get_link(&self, link: &ResourceLink) -> (r: Result<ResourceRecord, ApiError>)
        requires
            self.wf(),
        ensures
            match r {
                Ok(rec) => self@.lookup(*link) == Some(rec@),
                Err(e) => self@.lookup(*link) is None && e == ApiError::NotFound(link.rid),
            },
    {
        match self.position(link.rid) {
            Some(i) => {
                let rec = &self.records[i];
                if rec.obj.body.rtype() == link.rtype {
                    Ok(rec.clone())
                } else {
                    Err(ApiError::NotFound(link.rid))
                }
            },
            None => Err(ApiError::NotFound(link.rid)),
        }
    }

    /// Looks a resource up by type and id.
    pub fn get_resource(&self, rtype: ResourceType, id: &u128) -> (r: Result<
        ResourceRecord,
        ApiError,
    >)
        requires
            self.wf(),
        ensures
            match r {
                Ok(rec) => self@.lookup(ResourceLink { rid: *id, rtype }) == Some(rec@),
                Err(e) => self@.lookup(ResourceLink { rid: *id, rtype }) is None && e
                    == ApiError::NotFound(*id),
            },
    {
        let link = ResourceLink { rid: *id, rtype };
        self.get_link(&link)
    }

    /// Adds a resource under the given id. A payload that breaks the rules of
    /// its type is rejected with `Validation`, an id that is taken with
    /// `Conflict`; the store then stays as it was.
    pub fn add_resource_with_id(&mut self, id: u128, obj: Resource) -> (r: Result<
        ResourceLink,
        ApiError,
    >)
        requires
            old(self).wf(),
        ensures
            final(self).wf(),
            match r {
                Ok(link) => {
                    &&& obj.body.valid()
                    &&& !old(self)@.has(id)
                    &&& link == ResourceLink { rid: id, rtype: obj.body.spec_rtype() }
                    &&& final(self)@ == old(self)@.insert(RecordView { id, obj: obj@ })
                },
                Err(e) => {
                    &&& final(self)@ == old(self)@
                    &&& e == if !obj.body.valid() {
                        ApiError::Validation
                    } else {
                        ApiError::Conflict(id)
                    }
                    &&& obj.body.valid() ==> old(self)@.has(id)
                },
            },
    {
        if !obj.body.is_valid() {
            return Err(ApiError::Validation);
        }
        if self.position(id).is_some() {
            return Err(ApiError::Conflict(id));
        }
        let link = ResourceLink { rid: id, rtype: obj.body.rtype() };
        let ghost rec = RecordView { id, obj: obj@ };
        self.records.push(ResourceRecord { id, obj });
        proof {
            assert(self@.records =~= old(self)@.records.push(rec));
            assert(self@.aux =~= old(self)@.aux);
            assert forall|i: int| 0 <= i < self@.aux.len() implies self@.has(
                (#[trigger] self@.aux[i]).id,
            ) by {
                let k = old(self)@.index_of(old(self)@.aux[i].id);
                assert(self@.records[k].id == self@.aux[i].id);
            }
        }
        Ok(link)
    }

    /// Adds a resource under a fresh random id and returns its link. A payload
    /// that breaks the rules of its type is rejected with `Validation`. Should
    /// the drawn id be taken, the call fails with `Conflict` and the store
    /// stays as it was.
    pub fn add_resource(&mut self, obj: Resource) -> (r: Result<ResourceLink, ApiError>)
        requires
            old(self).wf(),
        ensures
            final(self).wf(),
            match r {
                Ok(link) => {
                    &&& obj.body.valid()
                    &&& is_random_form(link.rid)
                    &&& !old(self)@.has(link.rid)
                    &&& link.rtype == obj.body.spec_rtype()
                    &&& final(self)@ == old(self)@.insert(RecordView { id: link.rid, obj: obj@ })
                },
                Err(e) => {
                    &&& final(self)@ == old(self)@
                    &&& !obj.body.valid() ==> e == ApiError::Validation
                    &&& obj.body.valid() ==> exists|id: u128|
                        e == ApiError::Conflict(id) && old(self)@.has(id)
                },
            },
    {
        let id = random_id();
        self.add_resource_with_id(id, obj)
    }

    /// Removes the resource that the link resolves to, and the broker detail
    /// kept for it. Links that other resources hold to it are left as they
    /// are, and dangle from then on.
    pub fn delete(&mut self, link: &ResourceLink) -> (r: Result<(), ApiError>)
        requires
            old(self).wf(),
        ensures
            final(self).wf(),
            match r {
                Ok(_) => old(self)@.lookup(*link) is Some && final(self)@ == old(self)@.remove(
                    link.rid,
                ),
                Err(e) => old(self)@.lookup(*link) is None && final(self)@ == old(self)@ && e
                    == ApiError::NotFound(link.rid),
            },
    {
        let pos = match self.position(link.rid) {
            Some(i) => i,
            None => {
                return Err(ApiError::NotFound(link.rid));
            },
        };
        if self.records[pos].obj.body.rtype() != link.rtype {
            return Err(ApiError::NotFound(link.rid));
        }
        let aux_pos = self.aux_position(link.rid);
        self.records.remove(pos);
        match aux_pos {
            Some(j) => {
                self.aux.remove(j);
            },
            None => {},
        }
        proof {
            let o = old(self)@;
            let n = self@;
            assert(n.records =~= o.records.remove(pos as int));
            assert(n.aux =~= o.remove(link.rid).aux);
            assert forall|i: int| 0 <= i < n.aux.len() implies n.has((#[trigger] n.aux[i]).id) by {
                let oi = if o.has_aux(link.rid) && i >= o.aux_index_of(link.rid) {
                    i + 1
                } else {
                    i
                };
                assert(n.aux[i] == o.aux[oi]);
                assert(o.aux[oi].id != link.rid);
                let k = o.index_of(o.aux[oi].id);
                assert(o.records[k].id == o.aux[oi].id);
                assert(k != pos);
                let nk = if k < pos {
                    k
                } else {
                    k - 1
                };
                assert(n.records[nk] == o.records[k]);
            }
        }
        Ok(())
    }

    /// A snapshot of every record, in store order.
    pub fn get_resources(&self) -> (out: Vec<ResourceRecord>)
        ensures
            records_view(out@) == self@.records,
    {
        let mut out: Vec<ResourceRecord> = Vec::new();
        let mut i: usize = 0;
        while i < self.records.len()
            invariant
                i <= self.records.len(),
                records_view(out@) =~= self@.records.take(i as int),
            decreases self.records.len() - i,
        {
            let rec = self.records[i].clone();
            let ghost before = out@;
            out.push(rec);
            proof {
                assert(records_view(out@) =~= records_view(before).push(rec@));
                assert(self@.records.take(i + 1) =~= self@.records.take(i as int).push(
                    self@.records[i as int],
                ));
            }
            i += 1;
        }
        assert(self@.records.take(i as int) =~= self@.records);
        out
    }

    /// A snapshot of the records of one type, in store order.
    pub fn get_resources_by_type(&self, rtype: ResourceType) -> (out: Vec<ResourceRecord>)
        ensures
            records_view(out@) == self@.of_type(rtype),
    {
        let ghost pred = |r: RecordView| r.rtype() == rtype;
        let mut out: Vec<ResourceRecord> = Vec::new();
        let mut i: usize = 0;
        proof {
            assert(self@.records.take(0) =~= Seq::<RecordView>::empty());
            assert(records_view(out@) =~= Seq::<RecordView>::empty());
            reveal(Seq::filter);
        }
        while i < self.records.len()
            invariant
                i <= self.records.len(),
                pred == |r: RecordView| r.rtype() == rtype,
                records_view(out@) =~= self@.records.take(i as int).filter(pred),
            decreases self.records.len() - i,
        {
            let ghost before = out@;
            proof {
                let next = self@.records.take(i + 1);
                assert(next.drop_last() =~= self@.records.take(i as int));
                assert(next.last() == self@.records[i as int]);
                reveal(Seq::filter);
                assert(next.filter(pred) == if pred(next.last()) {
                    next.drop_last().filter(pred).push(next.last())
                } else {
                    next.drop_last().filter(pred)
                });
            }
            if self.records[i].obj.body.rtype() == rtype {
                let rec = self.records[i].clone();
                out.push(rec);
                proof {
                    assert(records_view(out@) =~= records_view(before).push(rec@));
                }
            }
            i += 1;
        }
        assert(self@.records.take(i as int) =~= self@.records);
        out
    }

    /// The id of the first record of the given type that carries the given
    /// name.
    pub fn find_named(&self, rtype: ResourceType, name: &str) -> (r: Option<u128>)
        ensures
            match r {
                Some(id) => self@.has_named(rtype, name@) && id == self@.records[self@.first_named(
                    rtype,
                    name@,
                )].id,
                None => !self@.has_named(rtype, name@),
            },
    {
        let mut i: usize = 0;
        while i < self.records.len()
            invariant
                i <= self.records.len(),
                forall|j: int| 0 <= j < i ==> !#[trigger] self@.named_at(j, rtype, name@),
            decreases self.records.len() - i,
        {
            let rec = &self.records[i];
            if rec.obj.body.rtype() == rtype && str_eq(rec.obj.metadata.name.as_str(), name) {
                proof {
                    reveal(StoreView::first_named);
                    assert(self@.named_at(i as int, rtype, name@));
                    let k = self@.first_named(rtype, name@);
                    assert(k == i) by {
                        if k < i {
                            assert(!self@.named_at(k, rtype, name@));
                        }
                    }
                }
                return Some(rec.id);
            }
            i += 1;
        }
        None
    }

    /// Replaces the body of a record; its id, its metadata and its place stay.
    /// Fails with `NotFound` where no record has the id, and with `Validation`
    /// where the new body is of another type than the old one or breaks the
    /// rules of its type.
    pub fn set_body(&mut self, id: u128, body: Body) -> (r: Result<(), ApiError>)
        requires
            old(self).wf(),
        ensures
            final(self).wf(),
            match r {
                Ok(_) => {
                    &&& old(self)@.has(id)
                    &&& old(self)@.record(id).rtype() == body.spec_rtype()
                    &&& body.valid()
                    &&& final(self)@ == old(self)@.with_body(id, body)
                },
                Err(e) => {
                    &&& final(self)@ == old(self)@
                    &&& e == if !old(self)@.has(id) {
                        ApiError::NotFound(id)
                    } else {
                        ApiError::Validation
                    }
                    &&& old(self)@.has(id) ==> old(self)@.record(id).rtype() != body.spec_rtype()
                        || !body.valid()
                },
            },
    {
        let pos = match self.position(id) {
            Some(i) => i,
            None => {
                return Err(ApiError::NotFound(id));
            },
        };
        if self.records[pos].obj.body.rtype() != body.rtype() || !body.is_valid() {
            return Err(ApiError::Validation);
        }
        let metadata = self.records[pos].obj.metadata.clone();
        self.records.set(pos, ResourceRecord { id, obj: Resource { metadata, body } });
        proof {
            let o = old(self)@;
            let n = self@;
            assert(n.records =~= o.with_body(id, body).records);
            assert(n.aux =~= o.aux);
            assert forall|i: int| 0 <= i < n.aux.len() implies n.has((#[trigger] n.aux[i]).id) by {
                let k = o.index_of(o.aux[i].id);
                assert(n.records[k].id == o.records[k].id);
            }
        }
        Ok(())
    }

    /// The broker detail kept for an id.
    pub fn get_aux(&self, id: u128) -> (r: Option<AuxData>)
        requires
            self.wf(),
        ensures
            match r {
                Some(a) => self@.aux_of(id) == Some(a@),
                None => self@.aux_of(id) is None,
            },
    {
        match self.aux_position(id) {
            Some(i) => Some(self.aux[i].data.clone()),
            None => None,
        }
    }

    /// Keeps broker detail for a resource, in place of what was kept for it
    /// before. Fails with `NotFound` where no resource has the id.
    pub fn set_aux(&mut self, id: u128, data: AuxData) -> (r: Result<(), ApiError>)
        requires
            old(self).wf(),
        ensures
            final(self).wf(),
            match r {
                Ok(_) => old(self)@.has(id) && final(self)@ == old(self)@.with_aux(id, data@),
                Err(e) => !old(self)@.has(id) && final(self)@ == old(self)@ && e
                    == ApiError::NotFound(id),
            },
    {
        if self.position(id).is_none() {
            return Err(ApiError::NotFound(id));
        }
        let ghost entry = AuxEntryView { id, data: data@ };
        match self.aux_position(id) {
            Some(j) => {
                self.aux.set(j, AuxEntry { id, data });
                proof {
                    assert(self@.aux =~= old(self)@.aux.update(j as int, entry));
                }
            },
            None => {
                self.aux.push(AuxEntry { id, data });
                proof {
                    assert(self@.aux =~= old(self)@.aux.push(entry));
                }
            },
        }
        proof {
            assert(self@.records =~= old(self)@.records);
        }
        Ok(())
    }
}

/// A resource that was added under a free id is found again under its link,
/// with the metadata and the body it was given.
pub proof fn lemma_added_is_found(s: StoreView, id: u128, obj: ResourceView)
    requires
        s.wf(),
        obj.body.valid(),
        !s.has(id),
    ensures
        s.insert(RecordView { id, obj }).wf(),
        s.insert(RecordView { id, obj }).lookup(
            ResourceLink { rid: id, rtype: obj.body.spec_rtype() },
        ) == Some(RecordView { id, obj }),
{
    let rec = RecordView { id, obj };
    let n = s.insert(rec);
    let last = s.records.len() as int;
    assert(n.records[last] == rec);
    assert forall|i: int| 0 <= i < n.aux.len() implies n.has((#[trigger] n.aux[i]).id) by {
        let k = s.index_of(s.aux[i].id);
        assert(n.records[k].id == s.aux[i].id);
    }
    assert(n.has(id));
    let k = n.index_of(id);
    if k < last {
        assert(s.records[k].id == id);
    }
}

/// Adding a resource leaves what every other link resolves to as it was.
pub proof fn lemma_add_keeps_others(s: StoreView, rec: RecordView, other: ResourceLink)
    requires
        s.wf(),
        !s.has(rec.id),
        other.rid != rec.id,
    ensures
        s.insert(rec).lookup(other) == s.lookup(other),
{
    let n = s.insert(rec);
    let last = s.records.len() as int;
    if s.has(other.rid) {
        let k = s.index_of(other.rid);
        assert(n.records[k].id == other.rid);
        let m = n.index_of(other.rid);
        assert(m == k) by {
            if m != k {
                assert(n.records[m].id == n.records[k].id);
                if m < last {
                    assert(s.records[m].id == s.records[k].id);
                }
            }
        }
    } else {
        if n.has(other.rid) {
            let m = n.index_of(other.rid);
            assert(m < last);
            assert(s.records[m].id == other.rid);
        }
    }
}

/// After a resource was deleted, no link finds its id any more, whatever type
/// the link names; so a second deletion fails as a lookup does. Its broker
/// detail is gone with it.
pub proof fn lemma_deleted_is_gone(s: StoreView, link: ResourceLink, again: ResourceLink)
    requires
        s.wf(),
        s.lookup(link) is Some,
        again.rid == link.rid,
    ensures
        s.remove(link.rid).wf(),
        !s.remove(link.rid).has(link.rid),
        s.remove(link.rid).lookup(again) is None,
        s.remove(link.rid).aux_of(link.rid) is None,
{
    let id = link.rid;
    let n = s.remove(id);
    let pos = s.index_of(id);
    assert forall|i: int| 0 <= i < n.records.len() implies (#[trigger] n.records[i]).id != id by {
        let oi = if i < pos {
            i
        } else {
            i + 1
        };
        assert(n.records[i] == s.records[oi]);
        assert(s.records[oi].id != s.records[pos].id);
    }
    assert forall|i: int| 0 <= i < n.aux.len() implies (#[trigger] n.aux[i]).id != id && n.has(
        n.aux[i].id,
    ) by {
        let oi = if s.has_aux(id) && i >= s.aux_index_of(id) {
            i + 1
        } else {
            i
        };
        assert(n.aux[i] == s.aux[oi]);
        if s.has_aux(id) {
            assert(s.aux[oi].id != s.aux[s.aux_index_of(id)].id);
        }
        let k = s.index_of(s.aux[oi].id);
        assert(s.records[k].id == s.aux[oi].id);
        let nk = if k < pos {
            k
        } else {
            k - 1
        };
        assert(n.records[nk] == s.records[k]);
    }
}

/// A deletion leaves what every link to another id resolves to as it was:
/// nothing is removed with the resource but its own broker detail, and a link
/// that pointed to it is not mended.
pub proof fn lemma_delete_keeps_others(s: StoreView, id: u128, other: ResourceLink)
    requires
        s.wf(),
        s.has(id),
        other.rid != id,
    ensures
        s.remove(id).lookup(other) == s.lookup(other),
{
    let n = s.remove(id);
    let pos = s.index_of(id);
    if s.has(other.rid) {
        let k = s.index_of(other.rid);
        let nk = if k < pos {
            k
        } else {
            k - 1
        };
        assert(n.records[nk] == s.records[k]);
        let m = n.index_of(other.rid);
        let om = if m < pos {
            m
        } else {
            m + 1
        };
        assert(n.records[m] == s.records[om]);
        assert(om == k) by {
            if om != k {
                assert(s.records[om].id == s.records[k].id);
            }
        }
    } else {
        if n.has(other.rid) {
            let m = n.index_of(other.rid);
            let om = if m < pos {
                m
            } else {
                m + 1
            };
            assert(n.records[m] == s.records[om]);
            assert(s.records[om].id == other.rid);
        }
    }
}

/// The first record of a type and name is found under its id, at its place,
/// and is of that type.
pub proof fn lemma_first_named_is_found(s: StoreView, rtype: ResourceType, name: Seq<char>)
    requires
        s.wf(),
        s.has_named(rtype, name),
    ensures
        0 <= s.first_named(rtype, name) < s.records.len(),
        s.named_at(s.first_named(rtype, name), rtype, name),
        s.has(s.records[s.first_named(rtype, name)].id),
        s.index_of(s.records[s.first_named(rtype, name)].id) == s.first_named(rtype, name),
        s.record(s.records[s.first_named(rtype, name)].id).rtype() == rtype,
{
    let w = choose|i: int| 0 <= i < s.records.len() && #[trigger] s.named_at(i, rtype, name);
    lemma_first_named_exists(s, rtype, name, w);
    let i = s.first_named(rtype, name);
    let id = s.records[i].id;
    assert(s.records[i].id == id);
    let k = s.index_of(id);
    if k != i {
        assert(s.records[k].id == s.records[i].id);
    }
}

/// Where a record of a type carries a name, there is a first such record.
pub proof fn lemma_first_named_exists(s: StoreView, rtype: ResourceType, name: Seq<char>, k: int)
    requires
        0 <= k < s.records.len(),
        s.named_at(k, rtype, name),
    ensures
        0 <= s.first_named(rtype, name) <= k,
        s.named_at(s.first_named(rtype, name), rtype, name),
        forall|j: int| 0 <= j < s.first_named(rtype, name) ==> !#[trigger] s.named_at(j, rtype, name),
    decreases k,
{
    if exists|j: int| 0 <= j < k && #[trigger] s.named_at(j, rtype, name) {
        let j = choose|j: int| 0 <= j < k && #[trigger] s.named_at(j, rtype, name);
        lemma_first_named_exists(s, rtype, name, j);
    } else {
        reveal(StoreView::first_named);
        let f = s.first_named(rtype, name);
        if f > k {
            assert(!s.named_at(k, rtype, name));
        }
    }
}

/// A record is found under its id at its own place.
pub proof fn lemma_place_is_index(s: StoreView, i: int)
    requires
        s.wf(),
        0 <= i < s.records.len(),
    ensures
        s.has(s.records[i].id),
        s.index_of(s.records[i].id) == i,
        s.record(s.records[i].id) == s.records[i],
{
    let id = s.records[i].id;
    assert(s.records[i].id == id);
    let k = s.index_of(id);
    if k != i {
        assert(s.records[k].id == s.records[i].id);
    }
}

/// After a record was added, the store has its id and the ids it had.
pub proof fn lemma_insert_has(s: StoreView, rec: RecordView, id: u128)
    ensures
        s.insert(rec).has(id) <==> s.has(id) || id == rec.id,
{
    let n = s.insert(rec);
    let last = s.records.len() as int;
    assert(n.records[last] == rec);
    if s.has(id) {
        let k = s.index_of(id);
        assert(n.records[k].id == id);
    }
    if n.has(id) && id != rec.id {
        let k = n.index_of(id);
        assert(s.records[k].id == id);
    }
}

/// A store that was initialised cannot be initialised again, under whatever
/// ids.
pub proof fn lemma_init_is_once(
    s: StoreView,
    device_id: u128,
    home_id: u128,
    name: Seq<char>,
    next_device: u128,
    next_home: u128,
)
    ensures
        s.initialized(device_id, home_id, name).is_initialized(),
        s.initialized(device_id, home_id, name).init_error(next_device, next_home) == Some(
            ApiError::AlreadyInitialized,
        ),
{
    let n = s.initialized(device_id, home_id, name);
    let last = n.records.len() - 1;
    assert(n.records[last].rtype() == ResourceType::BridgeHome);
}

} // verus!
