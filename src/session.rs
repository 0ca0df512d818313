use crate::anchors::{anchor_outcome, element_size_outcome, name_pool_candidates, object_array_candidates, world_candidates, BaseAddressDumper};
use crate::error::ErrorKind;
use crate::name_pool::{block_count, offset_through, FNamePool};
use crate::object_array::{walk_array, GUObjectArray};
use crate::objects::ObjectManager;
use crate::offsets::{standard_offsets, UEOffset};
use crate::process::Process;
use crate::progress::ProgressPayload;
use crate::state::BaseAddresses;
use crate::inspector::{
    add_inspector, array_rows_outcome, details_outcome, get_array_elements, get_instance_details, get_object_details,
    hierarchy_outcome, instance_rows_outcome, DetailedObjectInfo, InspectorHierarchyNode, InstancePropertyInfo,
};
use crate::instance::{address_of_text, instances_outcome, parse_address, search_object_instances, InstanceSearchResult};
use crate::search::{global_search, search_outcome, GlobalSearchResult};
use vstd::prelude::*;

verus! {

/// Largest element size the object-array walk accepts.
pub const MAX_ELEMENT_SIZE: u64 = 0x1000;

/// A session: the attached process, the anchors resolved in it, the name
/// pool of the last object parse, the catalog, and the progress reports of
/// the last name-pool and object-array parses.
pub struct AppState {
    pub process: Option<Process>,
    pub name_pool: Option<FNamePool>,
    pub object_manager: ObjectManager,
    pub base_addresses: BaseAddresses,
    pub names_progress: Vec<ProgressPayload>,
    pub objects_progress: Vec<ProgressPayload>,
}

impl AppState {
    pub open spec fn wf(&self) -> bool {
        &&& self.object_manager.wf()
        &&& (self.process matches Some(p) ==> p.wf())
    }

    pub fn new() -> (r: AppState)
        ensures
            r.wf(),
            r.process is None,
            r.name_pool is None,
            r.object_manager.state().0.dom() == Set::<u64>::empty(),
    {
        AppState {
            process: None,
            name_pool: None,
            object_manager: ObjectManager::new(),
            base_addresses: BaseAddresses::new(),
            names_progress: Vec::new(),
            objects_progress: Vec::new(),
        }
    }

    /// Makes `process` the attached target; anchors of an earlier target
    /// are forgotten.
    pub fn attach(&mut self, process: Process)
        requires
            old(self).wf(),
            process.wf(),
        ensures
            final(self).wf(),
            final(self).process == Some(process),
            final(self).base_addresses.fname_pool is None,
            final(self).base_addresses.guobject_array is None,
            final(self).base_addresses.gworld is None,
    {
        self.process = Some(process);
        self.base_addresses = BaseAddresses::new();
    }

    /// Resolves and records the name pool's address.
    pub fn get_fname_pool_address(&mut self) -> (r: Result<u64, ErrorKind>)
        requires
            old(self).wf(),
        ensures
            final(self).wf(),
            final(self).process == old(self).process,
            match old(self).process {
                None => r == Err::<u64, ErrorKind>(ErrorKind::NotAttached),
                Some(p) => anchor_outcome(p, name_pool_candidates(), r) && (r matches Ok(a) ==> final(self).base_addresses.fname_pool == Some(a)),
            },
    {
        let r = match &self.process {
            None => return Err(ErrorKind::NotAttached),
            Some(p) => BaseAddressDumper::get_fname_pool(p),
        };
        if let Ok(a) = r {
            self.base_addresses.fname_pool = Some(a);
        }
        r
    }

    /// Resolves and records the object array's address and element size.
    pub fn get_guobject_array_address(&mut self) -> (r: Result<u64, ErrorKind>)
        requires
            old(self).wf(),
        ensures
            final(self).wf(),
            final(self).process == old(self).process,
            match old(self).process {
                None => r == Err::<u64, ErrorKind>(ErrorKind::NotAttached),
                Some(p) => anchor_outcome(p, object_array_candidates(), r) && (r matches Ok(a) ==> final(self).base_addresses.guobject_array == Some(a) && (final(self).base_addresses.guobject_element_size matches Some(k)
                    && element_size_outcome(p.memory, a as int, k as int))),
            },
    {
        let r = match &self.process {
            None => return Err(ErrorKind::NotAttached),
            Some(p) => BaseAddressDumper::get_guobject_array_with_element_size(p),
        };
        match r {
            Ok((a, k)) => {
                self.base_addresses.guobject_array = Some(a);
                self.base_addresses.guobject_element_size = Some(k);
                Ok(a)
            },
            Err(e) => Err(e),
        }
    }

    /// Resolves and records the world pointer's address.
    pub fn get_gworld_address(&mut self) -> (r: Result<u64, ErrorKind>)
        requires
            old(self).wf(),
        ensures
            final(self).wf(),
            final(self).process == old(self).process,
            match old(self).process {
                None => r == Err::<u64, ErrorKind>(ErrorKind::NotAttached),
                Some(p) => anchor_outcome(p, world_candidates(), r) && (r matches Ok(a) ==> final(self).base_addresses.gworld
                    == Some(a)),
            },
    {
        let r = match &self.process {
            None => return Err(ErrorKind::NotAttached),
            Some(p) => BaseAddressDumper::get_gworld(p),
        };
        if let Ok(a) = r {
            self.base_addresses.gworld = Some(a);
        }
        r
    }

    /// Parses the name pool at the recorded address: the number of blocks.
    /// Its progress reports replace those of the last name-pool parse.
    pub fn parse_fname_pool(&mut self) -> (r: Result<u32, ErrorKind>)
        requires
            old(self).wf(),
        ensures
            final(self).wf(),
            final(self).process == old(self).process,
            final(self).name_pool == old(self).name_pool,
            final(self).object_manager == old(self).object_manager,
            r is Ok ==> final(self).names_progress@.len() > 0 && ({
                let last = final(self).names_progress@.last();
                last.done == last.total && last.dynamic_total == last.count
            }),
            match (old(self).process, old(self).base_addresses.fname_pool) {
                (None, _) => r == Err::<u32, ErrorKind>(ErrorKind::NotAttached),
                (Some(_), None) => r == Err::<u32, ErrorKind>(ErrorKind::AnchorNotFound),
                (Some(p), Some(base)) => r == Ok::<u32, ErrorKind>(block_count(p.memory, base as int, 0, 0, 0) as u32),
            },
    {
        let p = match &self.process {
            None => return Err(ErrorKind::NotAttached),
            Some(p) => p,
        };
        let base = match self.base_addresses.fname_pool {
            None => return Err(ErrorKind::AnchorNotFound),
            Some(b) => b,
        };
        let mut pool = FNamePool::new(base);
        let mut progress: Vec<ProgressPayload> = Vec::new();
        let (blocks, _names) = pool.parse_pool(&p.memory, &mut progress);
        self.names_progress = progress;
        Ok(blocks)
    }

    /// Parses the object array into a cleared catalog with a new name pool
    /// (its string offset looked for in ids 1..=6 first); returns the count.
    pub fn parse_guobject_array(&mut self) -> (r: Result<u64, ErrorKind>)
        requires
            old(self).wf(),
        ensures
            final(self).wf(),
            final(self).process == old(self).process,
            old(self).process is None ==> r == Err::<u64, ErrorKind>(ErrorKind::NotAttached),
            r is Err ==> final(self).object_manager.state() == old(self).object_manager.state() && final(self).name_pool == old(self).name_pool,
            (old(self).process is Some && old(self).base_addresses.fname_pool is Some && old(self).base_addresses.guobject_array is Some
                && (old(self).base_addresses.guobject_element_size matches Some(k) && 0 < k <= MAX_ELEMENT_SIZE)) ==> r is Ok,
            old(self).process is Some && (old(self).base_addresses.fname_pool is None || old(self).base_addresses.guobject_array is None
                || old(self).base_addresses.guobject_element_size is None) ==> r == Err::<u64, ErrorKind>(ErrorKind::AnchorNotFound),
            match (old(self).process, old(self).base_addresses.fname_pool, old(self).base_addresses.guobject_array, old(self).base_addresses.guobject_element_size) {
                (Some(_), Some(_), Some(_), Some(k)) => !(0 < k <= MAX_ELEMENT_SIZE) ==> r == Err::<u64, ErrorKind>(ErrorKind::InvalidAddress),
                _ => true,
            },
            r is Ok ==> {
                let n = r->Ok_0;
                let p = old(self).process->0;
                let base = old(self).base_addresses.fname_pool->0;
                let pool = final(self).name_pool->0;
                &&& final(self).name_pool is Some
                &&& pool.base_address == base
                &&& pool.string_offset == offset_through(p.memory, base as int, None, 1, 7)
                &&& final(self).object_manager.state() == walk_array(
                    (Map::empty(), Map::empty(), 0, Set::empty()),
                    p.memory,
                    pool,
                    standard_offsets(),
                    old(self).base_addresses.guobject_array->0,
                    old(self).base_addresses.guobject_element_size->0,
                    0,
                )
                &&& n == final(self).object_manager.total_object_count
            },
    {
        let p = match &self.process {
            None => return Err(ErrorKind::NotAttached),
            Some(p) => p,
        };
        let (fname, guobj, size) = match (self.base_addresses.fname_pool, self.base_addresses.guobject_array, self.base_addresses.guobject_element_size) {
            (Some(f), Some(g), Some(k)) => (f, g, k),
            _ => return Err(ErrorKind::AnchorNotFound),
        };
        if size == 0 || size > MAX_ELEMENT_SIZE {
            return Err(ErrorKind::InvalidAddress);
        }
        let mut pool = FNamePool::new(fname);
        pool.discover_string_offset(&p.memory);
        self.object_manager.clear();
        proof {
            assert(self.object_manager.state().0 =~= Map::empty());
            assert(self.object_manager.state().1 =~= Map::empty());
            assert(self.object_manager.state() == (Map::<u64, crate::objects::ObjectView>::empty(), Map::<i32, u64>::empty(), 0nat, Set::<u64>::empty()));
        }
        let offsets = UEOffset::default();
        let ghost before = self.object_manager.state();
        let mut progress: Vec<ProgressPayload> = Vec::new();
        let count = GUObjectArray::new(guobj).parse_array(&p.memory, &pool, &offsets, size, &mut self.object_manager, &mut progress);
        self.objects_progress = progress;
        proof {
            assert(self.object_manager.state() == walk_array(before, p.memory, pool, standard_offsets(), guobj, size, 0));
        }
        self.name_pool = Some(pool);
        Ok(count)
    }

    /// The detail view of a cached object; needs an attached process and a
    /// parsed object array.
    pub fn get_object_details(&self, address: u64) -> (r: Result<DetailedObjectInfo, ErrorKind>)
        requires
            self.wf(),
        ensures
            match (self.process, self.name_pool) {
                (None, _) => r == Err::<DetailedObjectInfo, ErrorKind>(ErrorKind::NotAttached),
                (Some(_), None) => r == Err::<DetailedObjectInfo, ErrorKind>(ErrorKind::NotParsed),
                (Some(p), Some(pool)) => details_outcome(self.object_manager.state().0, p.memory, pool, standard_offsets(), address, r),
            },
    {
        let p = match &self.process {
            None => return Err(ErrorKind::NotAttached),
            Some(p) => p,
        };
        let pool = match &self.name_pool {
            None => return Err(ErrorKind::NotParsed),
            Some(n) => n,
        };
        let offsets = UEOffset::default();
        get_object_details(&self.object_manager, &p.memory, pool, &offsets, address)
    }

    /// A catalog search; needs an attached process and a parsed object array.
    pub fn global_search(&self, query: &str, search_mode: &str) -> (r: Result<Vec<GlobalSearchResult>, ErrorKind>)
        requires
            self.wf(),
        ensures
            match (self.process, self.name_pool) {
                (None, _) => r == Err::<Vec<GlobalSearchResult>, ErrorKind>(ErrorKind::NotAttached),
                (Some(_), None) => r == Err::<Vec<GlobalSearchResult>, ErrorKind>(ErrorKind::NotParsed),
                (Some(p), Some(pool)) => r matches Ok(v) && search_outcome(
                    self.object_manager.state().0,
                    p.memory,
                    pool,
                    standard_offsets(),
                    query@,
                    search_mode@,
                    v@,
                ),
            },
    {
        let p = match &self.process {
            None => return Err(ErrorKind::NotAttached),
            Some(p) => p,
        };
        let pool = match &self.name_pool {
            None => return Err(ErrorKind::NotParsed),
            Some(n) => n,
        };
        let offsets = UEOffset::default();
        Ok(global_search(&self.object_manager, &p.memory, pool, &offsets, query, search_mode))
    }

    /// The session's checks before a command on an address given in hex:
    /// the address parses, a process is attached and a pool is set.
    pub open spec fn command_error(&self, text: Seq<char>) -> Option<ErrorKind> {
        if address_of_text(text) is None {
            Some(ErrorKind::InvalidAddress)
        } else if self.process is None {
            Some(ErrorKind::NotAttached)
        } else if self.name_pool is None {
            Some(ErrorKind::NotParsed)
        } else {
            None
        }
    }

    /// Instances of the class whose address is given in hex.
    pub fn search_object_instances(&mut self, object_address: &str) -> (r: Result<Vec<InstanceSearchResult>, ErrorKind>)
        requires
            old(self).wf(),
        ensures
            final(self).wf(),
            final(self).process == old(self).process,
            final(self).name_pool == old(self).name_pool,
            match old(self).command_error(object_address@) {
                Some(e) => r == Err::<Vec<InstanceSearchResult>, ErrorKind>(e) && final(self).object_manager.state()
                    == old(self).object_manager.state(),
                None => r matches Ok(v) && instances_outcome(
                    old(self).object_manager.state(),
                    final(self).object_manager.state(),
                    old(self).process->0.memory,
                    old(self).name_pool->0,
                    standard_offsets(),
                    address_of_text(object_address@)->0,
                    v@,
                ),
            },
    {
        let addr = match parse_address(object_address) {
            None => return Err(ErrorKind::InvalidAddress),
            Some(a) => a,
        };
        let p = match &self.process {
            None => return Err(ErrorKind::NotAttached),
            Some(p) => p,
        };
        let pool = match &self.name_pool {
            None => return Err(ErrorKind::NotParsed),
            Some(n) => n,
        };
        let offsets = UEOffset::default();
        Ok(search_object_instances(&mut self.object_manager, p, pool, &offsets, addr))
    }

    /// The class chain of the instance whose address is given in hex.
    pub fn add_inspector(&mut self, instance_address: &str) -> (r: Result<Vec<InspectorHierarchyNode>, ErrorKind>)
        requires
            old(self).wf(),
        ensures
            final(self).wf(),
            final(self).process == old(self).process,
            final(self).name_pool == old(self).name_pool,
            match old(self).command_error(instance_address@) {
                Some(e) => r == Err::<Vec<InspectorHierarchyNode>, ErrorKind>(e) && final(self).object_manager.state()
                    == old(self).object_manager.state(),
                None => r matches Ok(v) && hierarchy_outcome(
                    old(self).object_manager.state(),
                    final(self).object_manager.state(),
                    old(self).process->0.memory,
                    old(self).name_pool->0,
                    standard_offsets(),
                    address_of_text(instance_address@)->0,
                    v@,
                ),
            },
    {
        let addr = match parse_address(instance_address) {
            None => return Err(ErrorKind::InvalidAddress),
            Some(a) => a,
        };
        let p = match &self.process {
            None => return Err(ErrorKind::NotAttached),
            Some(p) => p,
        };
        let pool = match &self.name_pool {
            None => return Err(ErrorKind::NotParsed),
            Some(n) => n,
        };
        let offsets = UEOffset::default();
        Ok(add_inspector(&mut self.object_manager, &p.memory, pool, &offsets, addr))
    }

    /// Live properties of an instance of a cached class, both given in hex.
    pub fn get_instance_details(&mut self, instance_address: &str, class_address: &str) -> (r: Result<Vec<InstancePropertyInfo>, ErrorKind>)
        requires
            old(self).wf(),
        ensures
            final(self).wf(),
            final(self).process == old(self).process,
            final(self).name_pool == old(self).name_pool,
            r is Err ==> final(self).object_manager.state() == old(self).object_manager.state(),
            address_of_text(instance_address@) is None ==> r == Err::<Vec<InstancePropertyInfo>, ErrorKind>(ErrorKind::InvalidAddress),
            match (address_of_text(instance_address@), old(self).command_error(class_address@)) {
                (Some(inst), None) => {
                    let class = address_of_text(class_address@)->0;
                    &&& (r is Err <==> !old(self).object_manager.state().0.contains_key(class))
                    &&& (r matches Err(e) ==> e == ErrorKind::CatalogMiss)
                    &&& (r matches Ok(rows) ==> instance_rows_outcome(
                        old(self).process->0.memory,
                        old(self).name_pool->0,
                        standard_offsets(),
                        class,
                        inst,
                        rows@,
                    ))
                },
                (Some(_), Some(e)) => r == Err::<Vec<InstancePropertyInfo>, ErrorKind>(e),
                _ => true,
            },
    {
        let inst = match parse_address(instance_address) {
            None => return Err(ErrorKind::InvalidAddress),
            Some(a) => a,
        };
        let class = match parse_address(class_address) {
            None => return Err(ErrorKind::InvalidAddress),
            Some(a) => a,
        };
        let p = match &self.process {
            None => return Err(ErrorKind::NotAttached),
            Some(p) => p,
        };
        let pool = match &self.name_pool {
            None => return Err(ErrorKind::NotParsed),
            Some(n) => n,
        };
        let offsets = UEOffset::default();
        get_instance_details(&mut self.object_manager, &p.memory, pool, &offsets, inst, class)
    }

    /// Rows of an array whose data address is given in hex.
    pub fn get_array_elements(&mut self, array_address: &str, inner_type: &str, count: i32) -> (r: Result<Vec<InstancePropertyInfo>, ErrorKind>)
        requires
            old(self).wf(),
        ensures
            final(self).wf(),
            final(self).process == old(self).process,
            final(self).name_pool == old(self).name_pool,
            match old(self).command_error(array_address@) {
                Some(e) => r == Err::<Vec<InstancePropertyInfo>, ErrorKind>(e) && final(self).object_manager.state()
                    == old(self).object_manager.state(),
                None => r matches Ok(v) && array_rows_outcome(address_of_text(array_address@)->0, inner_type@, count, v@),
            },
    {
        let addr = match parse_address(array_address) {
            None => return Err(ErrorKind::InvalidAddress),
            Some(a) => a,
        };
        let p = match &self.process {
            None => return Err(ErrorKind::NotAttached),
            Some(p) => p,
        };
        let pool = match &self.name_pool {
            None => return Err(ErrorKind::NotParsed),
            Some(n) => n,
        };
        let offsets = UEOffset::default();
        Ok(get_array_elements(&mut self.object_manager, &p.memory, pool, &offsets, addr, inner_type, count))
    }
}

} // verus!
