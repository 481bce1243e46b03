//! Databases, which hold object stores under names, and the factory that
//! opens and deletes databases.

use vstd::prelude::*;
use crate::indexeddb::object_store::{
    first_at, is_constraint_error, is_not_found_error, lemma_first_at, lemma_first_found,
    lemma_push_distinct, lemma_remove_distinct, path_view, IDBObjectStore, StoreView,
};
use crate::indexeddb::{
    IDBError, IDBObjectStoreParameters, IDBTransaction, IDBTransactionMode, TransactionView,
};
use crate::text::{str_eq, views};

verus! {

/// The stores as mathematical values.
pub open spec fn store_views(stores: Seq<IDBObjectStore>) -> Seq<StoreView> {
    Seq::new(stores.len(), |i: int| stores[i]@)
}

/// The names of the stores.
pub open spec fn store_names(stores: Seq<StoreView>) -> Seq<Seq<char>> {
    Seq::new(stores.len(), |i: int| stores[i].name)
}

/// The place of the first of the first `k` names under which there is no
/// store, and `k` where each has one.
pub open spec fn first_missing(stores: Seq<StoreView>, names: Seq<Seq<char>>, k: int) -> int
    decreases k,
{
    if k <= 0 || k > names.len() {
        0
    } else if first_missing(stores, names, k - 1) < k - 1 {
        first_missing(stores, names, k - 1)
    } else if first_at(store_names(stores), names[k - 1], 0) < stores.len() {
        k
    } else {
        k - 1
    }
}

/// The message that says that no store has a name.
pub open spec fn store_not_found(name: Seq<char>) -> Seq<char> {
    "Store '"@ + name + "' not found"@
}

/// Whether an error is a version error with this message.
pub open spec fn is_version_error(e: IDBError, text: Seq<char>) -> bool {
    e matches IDBError::VersionError(msg) && msg@ == text
}

/// Database
#[derive(Debug)]
pub struct IDBDatabase {
    name: String,
    version: u64,
    /// The object stores, in the order in which they were created
    object_stores: Vec<IDBObjectStore>,
}

/// A database as a mathematical value.
pub struct DatabaseView {
    pub name: Seq<char>,
    pub version: u64,
    pub stores: Seq<StoreView>,
}

impl DatabaseView {
    /// Whether the database has a store of this name.
    pub open spec fn has_store(self, name: Seq<char>) -> bool {
        first_at(store_names(self.stores), name, 0) < self.stores.len()
    }

    /// The place of the store of this name.
    pub open spec fn store_at(self, name: Seq<char>) -> int {
        first_at(store_names(self.stores), name, 0)
    }

    /// A database without stores.
    pub open spec fn empty(name: Seq<char>, version: u64) -> DatabaseView {
        DatabaseView { name, version, stores: Seq::empty() }
    }
}

impl View for IDBDatabase {
    type V = DatabaseView;

    closed spec fn view(&self) -> DatabaseView {
        DatabaseView {
            name: self.name@,
            version: self.version,
            stores: store_views(self.object_stores@),
        }
    }
}

impl Clone for IDBDatabase {
    fn clone(&self) -> (copy: Self)
        ensures
            copy@ == self@,
            self.wf() ==> copy.wf(),
    {
        let mut stores: Vec<IDBObjectStore> = Vec::new();
        let mut i: usize = 0;
        while i < self.object_stores.len()
            invariant
                i <= self.object_stores@.len(),
                stores@.len() == i,
                forall|j: int| 0 <= j < i ==> (#[trigger] stores@[j])@ == self.object_stores@[j]@,
            decreases self.object_stores@.len() - i,
        {
            stores.push(self.object_stores[i].clone());
            i = i + 1;
        }
        assert(store_views(stores@) =~= store_views(self.object_stores@));
        IDBDatabase { name: self.name.clone(), version: self.version, object_stores: stores }
    }
}

impl IDBDatabase {
    /// The object stores, in the order in which they were created.
    pub closed spec fn stores(&self) -> Seq<IDBObjectStore> {
        self.object_stores@
    }

    /// Whether the database is in order: no two stores have the same
    /// name, and each store is in order.
    pub open spec fn wf(&self) -> bool {
        &&& store_names(self@.stores).no_duplicates()
        &&& self@.stores == store_views(self.stores())
        &&& forall|i: int| 0 <= i < self.stores().len() ==> (#[trigger] self.stores()[i]).wf()
    }

    /// A database without stores.
    pub fn new(name: String, version: u64) -> (database: Self)
        ensures
            database.wf(),
            database@ == DatabaseView::empty(name@, version),
    {
        let database = IDBDatabase { name, version, object_stores: Vec::new() };
        assert(database@.stores =~= Seq::empty());
        database
    }

    /// The name of the database.
    pub fn name(&self) -> (name: &str)
        ensures
            name@ == self@.name,
    {
        self.name.as_str()
    }

    /// The version of the database.
    pub fn version(&self) -> (version: u64)
        ensures
            version == self@.version,
    {
        self.version
    }

    /// The names of the stores, in the order in which they were created.
    pub fn object_store_names(&self) -> (names: Vec<String>)
        ensures
            views(names@) == store_names(self@.stores),
    {
        let mut names: Vec<String> = Vec::new();
        let mut i: usize = 0;
        while i < self.object_stores.len()
            invariant
                i <= self.object_stores@.len(),
                names@.len() == i,
                forall|j: int|
                    0 <= j < i ==> (#[trigger] names@[j])@ == self.object_stores@[j]@.name,
            decreases self.object_stores@.len() - i,
        {
            names.push(String::from_str(self.object_stores[i].name()));
            i = i + 1;
        }
        assert(views(names@) =~= store_names(self@.stores));
        names
    }

    /// The place of the store of a name, and the number of stores where
    /// there is none.
    fn position(&self, name: &str) -> (at: usize)
        ensures
            at == self@.store_at(name@),
            at <= self.object_stores@.len(),
    {
        let ghost names = store_names(self@.stores);
        let mut i: usize = 0;
        while i < self.object_stores.len() && !str_eq(self.object_stores[i].name(), name)
            invariant
                i <= self.object_stores@.len(),
                names == store_names(self@.stores),
                forall|j: int| 0 <= j < i ==> names[j] != name@,
            decreases self.object_stores@.len() - i,
        {
            i = i + 1;
        }
        proof {
            lemma_first_at(names, name@, 0, i as int);
        }
        i
    }

    /// Creates a store without records; an error where the database has a
    /// store of that name.
    pub fn create_object_store(&mut self, name: String, params: IDBObjectStoreParameters) -> (done:
        Result<(), IDBError>)
        requires
            old(self).wf(),
        ensures
            final(self).wf(),
            match done {
                Ok(_) => !old(self)@.has_store(name@) && final(self)@ == (DatabaseView {
                    stores: old(self)@.stores.push(
                        StoreView {
                            name: name@,
                            key_path: path_view(params.key_path),
                            auto_increment: params.auto_increment,
                            counter: 0,
                            records: Seq::empty(),
                            indexes: Seq::empty(),
                        },
                    ),
                    ..old(self)@
                }),
                Err(e) => old(self)@.has_store(name@) && final(self)@ == old(self)@
                    && is_constraint_error(e, "Object store already exists"@),
            },
    {
        if self.position(name.as_str()) < self.object_stores.len() {
            return Err(IDBError::ConstraintError(String::from_str("Object store already exists")));
        }
        let ghost before = self@.stores;
        let store = IDBObjectStore::new(name, params);
        self.object_stores.push(store);
        assert(self@.stores =~= before.push(store@));
        assert(store_names(self@.stores) =~= store_names(before).push(name@));
        proof {
            lemma_push_distinct(store_names(before), name@);
        }
        Ok(())
    }

    /// Takes out the store of a name; an error where there is none.
    pub fn delete_object_store(&mut self, name: &str) -> (done: Result<(), IDBError>)
        requires
            old(self).wf(),
        ensures
            final(self).wf(),
            match done {
                Ok(_) => old(self)@.has_store(name@) && final(self)@ == (DatabaseView {
                    stores: old(self)@.stores.remove(old(self)@.store_at(name@)),
                    ..old(self)@
                }),
                Err(e) => !old(self)@.has_store(name@) && final(self)@ == old(self)@
                    && is_not_found_error(e, "Object store not found"@),
            },
    {
        let at = self.position(name);
        if at < self.object_stores.len() {
            let ghost before = self@.stores;
            self.object_stores.remove(at);
            assert(self@.stores =~= before.remove(at as int));
            assert(store_names(self@.stores) =~= store_names(before).remove(at as int));
            proof {
                lemma_remove_distinct(store_names(before), at as int);
            }
            Ok(())
        } else {
            Err(IDBError::NotFoundError(String::from_str("Object store not found")))
        }
    }

    /// The store of a name; an error where there is none.
    pub fn object_store(&self, name: &str) -> (found: Result<&IDBObjectStore, IDBError>)
        ensures
            match found {
                Ok(store) => self@.has_store(name@) && *store == self.stores()[self@.store_at(
                    name@,
                )],
                Err(e) => !self@.has_store(name@) && is_not_found_error(
                    e,
                    "Object store not found"@,
                ),
            },
    {
        let at = self.position(name);
        if at < self.object_stores.len() {
            Ok(&self.object_stores[at])
        } else {
            Err(IDBError::NotFoundError(String::from_str("Object store not found")))
        }
    }

    /// The store of a name, to be changed in place; an error where there
    /// is none.
    pub fn object_store_mut(&mut self, name: &str) -> (found: Result<&mut IDBObjectStore, IDBError>)
        ensures
            final(self)@.name == old(self)@.name,
            final(self)@.version == old(self)@.version,
            match found {
                Ok(store) => old(self)@.has_store(name@) && *store == old(self).stores()[old(self)@.store_at(name@)] && final(self).stores() == old(self).stores().update(
                    old(self)@.store_at(name@),
                    *final(store),
                ),
                Err(e) => !old(self)@.has_store(name@) && final(self).stores() == old(self).stores() && is_not_found_error(e, "Object store not found"@),
            },
    {
        let at = self.position(name);
        if at < self.object_stores.len() {
            Ok(&mut self.object_stores[at])
        } else {
            Err(IDBError::NotFoundError(String::from_str("Object store not found")))
        }
    }

    /// A transaction over stores of the database; an error that names the
    /// first of the names under which there is no store.
    pub fn transaction(&self, store_names: Vec<String>, mode: IDBTransactionMode) -> (started:
        Result<IDBTransaction, IDBError>)
        ensures
            ({
                let missing = first_missing(
                    self@.stores,
                    views(store_names@),
                    store_names@.len() as int,
                );
                match started {
                    Ok(transaction) => missing == store_names@.len() && transaction@ == (
                    TransactionView { mode, store_names: store_names@, active: true, aborted: false }),
                    Err(e) => 0 <= missing < store_names@.len() && is_not_found_error(
                        e,
                        store_not_found(store_names@[missing]@),
                    ),
                }
            }),
    {
        let mut i: usize = 0;
        while i < store_names.len()
            invariant
                i <= store_names@.len(),
                first_missing(self@.stores, views(store_names@), i as int) == i,
            decreases store_names@.len() - i,
        {
            if self.position(store_names[i].as_str()) >= self.object_stores.len() {
                proof {
                    lemma_first_missing(
                        self@.stores,
                        views(store_names@),
                        i as int + 1,
                        store_names@.len() as int,
                    );
                }
                let message = String::from_str("Store '").concat(store_names[i].as_str()).concat(
                    "' not found",
                );
                return Err(IDBError::NotFoundError(message));
            }
            i = i + 1;
        }
        Ok(IDBTransaction::new(store_names, mode))
    }
}

/// Once a name without a store is found among the first `k` names, it
/// stays the first such name however many more are looked at.
pub proof fn lemma_first_missing(stores: Seq<StoreView>, names: Seq<Seq<char>>, k: int, n: int)
    requires
        0 < k <= n <= names.len(),
        first_missing(stores, names, k) < k,
    ensures
        first_missing(stores, names, n) == first_missing(stores, names, k),
    decreases n - k,
{
    if k < n {
        lemma_first_missing(stores, names, k, n - 1);
    }
}

/// The databases as mathematical values.
pub open spec fn database_views(databases: Seq<IDBDatabase>) -> Seq<DatabaseView> {
    Seq::new(databases.len(), |i: int| databases[i]@)
}

/// The names of the databases.
pub open spec fn database_names(databases: Seq<DatabaseView>) -> Seq<Seq<char>> {
    Seq::new(databases.len(), |i: int| databases[i].name)
}

/// Factory for creating/opening databases
pub struct IDBFactory {
    /// The databases, in the order in which their names came
    databases: Vec<IDBDatabase>,
}

impl View for IDBFactory {
    type V = Seq<DatabaseView>;

    closed spec fn view(&self) -> Seq<DatabaseView> {
        database_views(self.databases@)
    }
}

impl IDBFactory {
    /// Whether the factory is in order: no two databases have the same
    /// name.
    pub open spec fn wf(&self) -> bool {
        database_names(self@).no_duplicates()
    }

    /// Whether the factory has a database of this name.
    pub open spec fn has_database(&self, name: Seq<char>) -> bool {
        first_at(database_names(self@), name, 0) < self@.len()
    }

    /// The place of the database of this name.
    pub open spec fn database_at(&self, name: Seq<char>) -> int {
        first_at(database_names(self@), name, 0)
    }

    /// A factory without databases.
    pub fn new() -> (factory: Self)
        ensures
            factory.wf(),
            factory@.len() == 0,
    {
        IDBFactory { databases: Vec::new() }
    }

    /// The place of the database of a name, and the number of databases
    /// where there is none.
    fn position(&self, name: &str) -> (at: usize)
        ensures
            at == self.database_at(name@),
            at <= self.databases@.len(),
    {
        let ghost names = database_names(self@);
        let mut i: usize = 0;
        while i < self.databases.len() && !str_eq(self.databases[i].name(), name)
            invariant
                i <= self.databases@.len(),
                names == database_names(self@),
                forall|j: int| 0 <= j < i ==> names[j] != name@,
            decreases self.databases@.len() - i,
        {
            i = i + 1;
        }
        proof {
            lemma_first_at(names, name@, 0, i as int);
        }
        i
    }

    /// Opens a database. Where the factory has it at this version, a copy
    /// of it is given. Where it has it at a higher version, that is an
    /// error. Else a database without stores is made at this version,
    /// kept in place of what was there, and given.
    pub fn open(&mut self, name: &str, version: u64) -> (opened: Result<IDBDatabase, IDBError>)
        requires
            old(self).wf(),
        ensures
            final(self).wf(),
            ({
                let at = old(self).database_at(name@);
                if old(self).has_database(name@) && old(self)@[at].version > version {
                    &&& final(self)@ == old(self)@
                    &&& opened matches Err(e) && is_version_error(
                        e,
                        "Requested version is lower than current"@,
                    )
                } else if old(self).has_database(name@) && old(self)@[at].version == version {
                    &&& final(self)@ == old(self)@
                    &&& opened matches Ok(database) && database@ == old(self)@[at]
                } else if old(self).has_database(name@) {
                    &&& final(self)@ == old(self)@.update(at, DatabaseView::empty(name@, version))
                    &&& opened matches Ok(database) && database@ == DatabaseView::empty(
                        name@,
                        version,
                    )
                } else {
                    &&& final(self)@ == old(self)@.push(DatabaseView::empty(name@, version))
                    &&& opened matches Ok(database) && database@ == DatabaseView::empty(
                        name@,
                        version,
                    )
                }
            }),
    {
        let at = self.position(name);
        let ghost before = self@;
        proof {
            lemma_first_found(database_names(before), name@, 0);
        }
        if at < self.databases.len() {
            if self.databases[at].version() > version {
                return Err(
                    IDBError::VersionError(
                        String::from_str("Requested version is lower than current"),
                    ),
                );
            }
            if self.databases[at].version() == version {
                return Ok(self.databases[at].clone());
            }
            let database = IDBDatabase::new(String::from_str(name), version);
            let copy = database.clone();
            self.databases.set(at, database);
            assert(self@ =~= before.update(at as int, DatabaseView::empty(name@, version)));
            assert(database_names(self@) =~= database_names(before));
            Ok(copy)
        } else {
            let database = IDBDatabase::new(String::from_str(name), version);
            let copy = database.clone();
            self.databases.push(database);
            assert(self@ =~= before.push(DatabaseView::empty(name@, version)));
            assert(database_names(self@) =~= database_names(before).push(name@));
            proof {
                lemma_push_distinct(database_names(before), name@);
            }
            Ok(copy)
        }
    }

    /// Deletes the database of a name; an error where there is none.
    pub fn delete_database(&mut self, name: &str) -> (done: Result<(), IDBError>)
        requires
            old(self).wf(),
        ensures
            final(self).wf(),
            match done {
                Ok(_) => old(self).has_database(name@) && final(self)@ == old(self)@.remove(
                    old(self).database_at(name@),
                ),
                Err(e) => !old(self).has_database(name@) && final(self)@ == old(self)@
                    && is_not_found_error(e, "Database not found"@),
            },
    {
        let at = self.position(name);
        if at < self.databases.len() {
            let ghost before = self@;
            self.databases.remove(at);
            assert(self@ =~= before.remove(at as int));
            assert(database_names(self@) =~= database_names(before).remove(at as int));
            proof {
                lemma_remove_distinct(database_names(before), at as int);
            }
            Ok(())
        } else {
            Err(IDBError::NotFoundError(String::from_str("Database not found")))
        }
    }

    /// The names of the databases, in the order in which they came.
    pub fn databases(&self) -> (names: Vec<String>)
        ensures
            views(names@) == database_names(self@),
    {
        let mut names: Vec<String> = Vec::new();
        let mut i: usize = 0;
        while i < self.databases.len()
            invariant
                i <= self.databases@.len(),
                names@.len() == i,
                forall|j: int| 0 <= j < i ==> (#[trigger] names@[j])@ == self.databases@[j]@.name,
            decreases self.databases@.len() - i,
        {
            names.push(String::from_str(self.databases[i].name()));
            i = i + 1;
        }
        assert(views(names@) =~= database_names(self@));
        names
    }
}

impl Default for IDBFactory {
    fn default() -> (factory: Self)
        ensures
            factory.wf(),
            factory@.len() == 0,
    {
        IDBFactory::new()
    }
}

} // verus!
