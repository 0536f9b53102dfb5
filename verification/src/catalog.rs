//! Databases and their collections, as the column families of an instance
//! name them: a collection `c` of database `d` lives in column family
//! `d:c`. The decisions of creating, listing, finding and dropping them are
//! made here over the list of column-family names; the column families
//! themselves are the caller's.
use vstd::prelude::*;
use vstd::utf8::{
    decode_utf8, encode_utf8, encode_utf8_decode_utf8, encode_utf8_valid_utf8,
    is_char_boundary_iff_not_is_continuation_byte, valid_utf8_split,
};
use crate::bytes::str_equal;
use crate::keys::{find_byte, find_from, lemma_find_from, Collection, COLON};
use crate::registry::{contains_str, strip_all, stripped, views, DEFAULT_CF, META_CF};

verus! {

broadcast use vstd::seq_lib::group_seq_properties;

/// Why a catalog operation is refused.
#[derive(Debug, PartialEq, Eq)]
pub enum CatalogError {
    /// The name is not acceptable; the text says why.
    InvalidDocument(String),
    /// The collection or database already exists.
    CollectionAlreadyExists(String),
    /// No such collection or database.
    CollectionNotFound(String),
}

/// The column families of an instance, by name.
pub struct Catalog {
    pub names: Vec<String>,
}

impl Catalog {
    /// An instance without column families.
    pub fn new() -> (r: Self)
        ensures
            views(r.names@) == Seq::<Seq<char>>::empty(),
    {
        Catalog { names: Vec::new() }
    }

    /// Whether the column family `name` exists.
    pub fn has(&self, name: &str) -> (r: bool)
        ensures
            r == views(self.names@).contains(name@),
    {
        contains_str(&self.names, name)
    }
}

/// The parts of a name before and after its first `:`, if it has one.
pub open spec fn split_at_colon(name: Seq<char>) -> Option<(Seq<char>, Seq<char>)> {
    let b = encode_utf8(name);
    match find_from(b, COLON, 0) {
        Some(c) => Some(
            (decode_utf8(b.subrange(0, c)), decode_utf8(b.subrange(c + 1, b.len() as int))),
        ),
        None => None,
    }
}

/// Splits a name at its first `:`.
pub fn split_once_colon(name: &str) -> (r: Option<(String, String)>)
    ensures
        match r {
            Some((a, b)) => split_at_colon(name@) == Some((a@, b@)),
            None => split_at_colon(name@) is None,
        },
{
    let bytes = name.as_bytes();
    let ghost b = encode_utf8(name@);
    match find_byte(bytes, COLON) {
        None => None,
        Some(c) => {
            proof {
                lemma_find_from(b, COLON, 0);
                encode_utf8_valid_utf8(name@);
                is_char_boundary_iff_not_is_continuation_byte(b, c as int);
                assert(vstd::utf8::is_char_boundary(b, c as int));
            }
            let (db, rest) = name.split_at(c);
            proof {
                valid_utf8_split(b, c as int);
                encode_utf8_valid_utf8(rest@);
                assert(encode_utf8(rest@) =~= b.subrange(c as int, b.len() as int));
                assert(encode_utf8(rest@)[0] == COLON);
                reveal_with_fuel(vstd::utf8::is_char_boundary, 2);
                assert(vstd::utf8::is_char_boundary(encode_utf8(rest@), 1));
            }
            let (_, coll) = rest.split_at(1);
            proof {
                encode_utf8_decode_utf8(db@);
                encode_utf8_decode_utf8(coll@);
                assert(encode_utf8(coll@) =~= b.subrange(c + 1, b.len() as int));
            }
            Some((db.to_owned(), coll.to_owned()))
        },
    }
}

/// A database: a name that prefixes its collections' column families.
pub struct Database {
    pub name: String,
}

/// The column family of collection `coll` of database `db`: `db:coll`.
pub open spec fn spec_cf_name(db: Seq<char>, coll: Seq<char>) -> Seq<char> {
    db + seq![':'] + coll
}

/// The names without the first occurrence of `x`.
pub open spec fn without(names: Seq<Seq<char>>, x: Seq<char>) -> Seq<Seq<char>> {
    match names.index_of_first(x) {
        Some(i) => names.remove(i),
        None => names,
    }
}

impl Database {
    pub fn new(name: String) -> (r: Self)
        ensures
            r.name@ == name@,
    {
        Database { name }
    }

    /// The database's name.
    pub fn db_name(&self) -> (r: &str)
        ensures
            r@ == self.name@,
    {
        self.name.as_str()
    }

    /// The column family of one of its collections: `<db>:<collection>`.
    pub fn collection_cf_name(&self, collection_name: &str) -> (r: String)
        ensures
            r@ == spec_cf_name(self.name@, collection_name@),
    {
        let mut n = String::from_str(self.name.as_str());
        n.append(":");
        n.append(collection_name);
        proof {
            reveal_strlit(":");
            assert(n@ =~= spec_cf_name(self.name@, collection_name@));
        }
        n
    }

    /// The column family of one of its columnar collections:
    /// `<db>:_columnar_<collection>`.
    pub fn columnar_cf_name(&self, collection_name: &str) -> (r: String)
        ensures
            r@ == self.name@ + ":_columnar_"@ + collection_name@,
    {
        let mut n = String::from_str(self.name.as_str());
        n.append(":_columnar_");
        n.append(collection_name);
        n
    }

    /// Creates collection `collection_name`: refused when its column family
    /// exists, else the column family is added.
    pub fn create_collection(&self, catalog: &mut Catalog, collection_name: String) -> (r: Result<
        (),
        CatalogError,
    >)
        ensures
            views(old(catalog).names@).contains(spec_cf_name(self.name@, collection_name@)) ==> {
                &&& r matches Err(CatalogError::CollectionAlreadyExists(m)) && m@ == collection_name@
                &&& views(final(catalog).names@) == views(old(catalog).names@)
            },
            !views(old(catalog).names@).contains(spec_cf_name(self.name@, collection_name@)) ==> {
                &&& r is Ok
                &&& views(final(catalog).names@) == views(old(catalog).names@).push(
                    spec_cf_name(self.name@, collection_name@),
                )
            },
    {
        let cf = self.collection_cf_name(collection_name.as_str());
        if catalog.has(cf.as_str()) {
            return Err(CatalogError::CollectionAlreadyExists(collection_name));
        }
        let ghost before = catalog.names@;
        catalog.names.push(cf);
        assert(views(catalog.names@) =~= views(before).push(spec_cf_name(self.name@, collection_name@)));
        Ok(())
    }

    /// Drops collection `collection_name`: refused when its column family
    /// does not exist, else the column family is removed.
    pub fn delete_collection(&self, catalog: &mut Catalog, collection_name: &str) -> (r: Result<
        (),
        CatalogError,
    >)
        ensures
            !views(old(catalog).names@).contains(spec_cf_name(self.name@, collection_name@)) ==> {
                &&& r matches Err(CatalogError::CollectionNotFound(m)) && m@ == collection_name@
                &&& views(final(catalog).names@) == views(old(catalog).names@)
            },
            views(old(catalog).names@).contains(spec_cf_name(self.name@, collection_name@)) ==> {
                &&& r is Ok
                &&& views(final(catalog).names@) == without(
                    views(old(catalog).names@),
                    spec_cf_name(self.name@, collection_name@),
                )
            },
    {
        let cf = self.collection_cf_name(collection_name);
        let ghost target = cf@;
        let ghost vs = views(catalog.names@);
        let mut i: usize = 0;
        while i < catalog.names.len()
            invariant
                i <= catalog.names@.len(),
                catalog.names@ == old(catalog).names@,
                vs == views(catalog.names@),
                target == cf@,
                target == spec_cf_name(self.name@, collection_name@),
                forall|j: int| 0 <= j < i ==> #[trigger] vs[j] != target,
            decreases catalog.names@.len() - i,
        {
            if str_equal(catalog.names[i].as_str(), cf.as_str()) {
                proof {
                    assert(vs[i as int] == target);
                    assert(vs.contains(target));
                    vs.index_of_first_ensures(target);
                    let k = vs.index_of_first(target)->0;
                    if k < i {
                        assert(vs[k] != target);
                    }
                    if k > i {
                        assert(vs[i as int] != target);
                    }
                }
                let _ = catalog.names.remove(i);
                assert(views(catalog.names@) =~= vs.remove(i as int));
                return Ok(());
            }
            i = i + 1;
        }
        proof {
            vs.index_of_first_ensures(target);
        }
        Err(CatalogError::CollectionNotFound(String::from_str(collection_name)))
    }

    /// The collections of this database, in column-family order: every
    /// column family named `<db>:<collection>`, without the prefix.
    pub fn list_collections(&self, catalog: &Catalog) -> (r: Vec<String>)
        ensures
            views(r@) == stripped(views(catalog.names@), encode_utf8(self.name@ + seq![':'])),
    {
        let mut prefix = String::from_str(self.name.as_str());
        prefix.append(":");
        proof {
            reveal_strlit(":");
            assert(prefix@ =~= self.name@ + seq![':']);
        }
        let r = strip_all(&catalog.names, prefix.as_str());
        assert(views(r@) =~= r@.map_values(|k: String| k@));
        r
    }

    /// A handle on collection `collection_name`, refused when its column
    /// family does not exist.
    pub fn get_collection(&self, catalog: &Catalog, collection_name: &str) -> (r: Result<
        Collection,
        CatalogError,
    >)
        ensures
            views(catalog.names@).contains(spec_cf_name(self.name@, collection_name@)) ==> (r matches Ok(
                c,
            ) && c.name@ == spec_cf_name(self.name@, collection_name@)),
            !views(catalog.names@).contains(spec_cf_name(self.name@, collection_name@)) ==> (r matches Err(
                CatalogError::CollectionNotFound(m),
            ) && m@ == collection_name@),
    {
        let cf = self.collection_cf_name(collection_name);
        if catalog.has(cf.as_str()) {
            Ok(Collection { name: cf })
        } else {
            Err(CatalogError::CollectionNotFound(String::from_str(collection_name)))
        }
    }

    /// A handle on collection `collection_name`, created first when it does
    /// not exist.
    pub fn get_or_create_collection(&self, catalog: &mut Catalog, collection_name: &str) -> (r:
        Result<Collection, CatalogError>)
        ensures
            r matches Ok(c) && c.name@ == spec_cf_name(self.name@, collection_name@),
            views(final(catalog).names@).contains(spec_cf_name(self.name@, collection_name@)),
            views(old(catalog).names@).contains(spec_cf_name(self.name@, collection_name@)) ==> views(
                final(catalog).names@,
            ) == views(old(catalog).names@),
            !views(old(catalog).names@).contains(spec_cf_name(self.name@, collection_name@)) ==> views(
                final(catalog).names@,
            ) == views(old(catalog).names@).push(spec_cf_name(self.name@, collection_name@)),
    {
        match self.get_collection(catalog, collection_name) {
            Ok(c) => Ok(c),
            Err(_) => {
                let _ = self.create_collection(catalog, String::from_str(collection_name));
                let ghost cf = spec_cf_name(self.name@, collection_name@);
                assert(views(catalog.names@)[views(catalog.names@).len() - 1] == cf);
                self.get_collection(catalog, collection_name)
            },
        }
    }

    /// Whether `collection_name` is one of its columnar collections.
    pub fn is_columnar_collection(&self, catalog: &Catalog, collection_name: &str) -> (r: bool)
        ensures
            r == views(catalog.names@).contains(self.name@ + ":_columnar_"@ + collection_name@),
    {
        let cf = self.columnar_cf_name(collection_name);
        catalog.has(cf.as_str())
    }
}

/// Whether a text holds the character `c`.
pub fn contains_char(s: &str, c: char) -> (r: bool)
    ensures
        r == s@.contains(c),
{
    let ghost text = s@;
    for x in it: s.chars()
        invariant
            it.seq() == text,
            text == s@,
            forall|j: int| 0 <= j < it.index() ==> #[trigger] text[j] != c,
    {
        if x == c {
            assert(text[it.index() as int] == c);
            return true;
        }
    }
    false
}

/// Whether a database name is acceptable: not empty, and without `:`.
pub open spec fn valid_database_name(name: Seq<char>) -> bool {
    name.len() > 0 && !name.contains(':')
}

/// Checks that database `name` can be created, given the databases that
/// exist.
pub fn create_database(databases: &Vec<String>, name: &str) -> (r: Result<(), CatalogError>)
    ensures
        !valid_database_name(name@) ==> (r matches Err(CatalogError::InvalidDocument(m)) && m@
            == "Invalid database name"@),
        valid_database_name(name@) && views(databases@).contains(name@) ==> (r matches Err(
            CatalogError::CollectionAlreadyExists(m),
        ) && m@ == "Database '"@ + name@ + "' already exists"@),
        valid_database_name(name@) && !views(databases@).contains(name@) ==> r is Ok,
{
    if name.is_empty() || contains_char(name, ':') {
        return Err(CatalogError::InvalidDocument(String::from_str("Invalid database name")));
    }
    if contains_str(databases, name) {
        let mut m = String::from_str("Database '");
        m.append(name);
        m.append("' already exists");
        return Err(CatalogError::CollectionAlreadyExists(m));
    }
    Ok(())
}

/// In order, the column families of database `db` (named `<db>:...`) that
/// are not already scheduled for drop.
pub open spec fn spec_doomed(cfs: Seq<Seq<char>>, db: Seq<char>, pending: Seq<Seq<char>>) -> Seq<
    Seq<char>,
>
    decreases cfs.len(),
{
    if cfs.len() == 0 {
        Seq::empty()
    } else {
        let rest = spec_doomed(cfs.drop_last(), db, pending);
        let cf = cfs.last();
        if crate::bytes::has_prefix(encode_utf8(cf), encode_utf8(db + seq![':'])) && !pending.contains(cf) {
            rest.push(cf)
        } else {
            rest
        }
    }
}

/// Checks that database `name` can be dropped and returns the column
/// families to drop: every one of the database that is not already
/// scheduled. The `_system` database cannot be dropped.
pub fn delete_database(
    databases: &Vec<String>,
    name: &str,
    cf_names: &Vec<String>,
    pending: &Vec<String>,
) -> (r: Result<Vec<String>, CatalogError>)
    ensures
        name@ == "_system"@ ==> (r matches Err(CatalogError::InvalidDocument(m)) && m@
            == "Cannot delete _system database"@),
        name@ != "_system"@ && !views(databases@).contains(name@) ==> (r matches Err(
            CatalogError::CollectionNotFound(m),
        ) && m@ == "Database '"@ + name@ + "' not found"@),
        name@ != "_system"@ && views(databases@).contains(name@) ==> (r matches Ok(doomed) && views(
            doomed@,
        ) == spec_doomed(views(cf_names@), name@, views(pending@))),
{
    if str_equal(name, "_system") {
        return Err(CatalogError::InvalidDocument(String::from_str("Cannot delete _system database")));
    }
    if !contains_str(databases, name) {
        let mut m = String::from_str("Database '");
        m.append(name);
        m.append("' not found");
        return Err(CatalogError::CollectionNotFound(m));
    }
    let mut prefix = String::from_str(name);
    prefix.append(":");
    proof {
        reveal_strlit(":");
        assert(prefix@ =~= name@ + seq![':']);
    }
    let ghost cfs = views(cf_names@);
    let mut doomed: Vec<String> = Vec::new();
    let mut i: usize = 0;
    while i < cf_names.len()
        invariant
            i <= cf_names@.len(),
            cfs == views(cf_names@),
            prefix@ == name@ + seq![':'],
            views(doomed@) == spec_doomed(cfs.subrange(0, i as int), name@, views(pending@)),
        decreases cf_names@.len() - i,
    {
        let cf = cf_names[i].as_str();
        assert(cfs.subrange(0, i + 1).drop_last() =~= cfs.subrange(0, i as int));
        assert(cfs.subrange(0, i + 1).last() == cf@);
        if crate::bytes::starts_with(cf.as_bytes(), prefix.as_str().as_bytes()) && !contains_str(
            pending,
            cf,
        ) {
            doomed.push(String::from_str(cf));
            assert(views(doomed@) =~= spec_doomed(cfs.subrange(0, i + 1), name@, views(pending@)));
        }
        i = i + 1;
    }
    assert(cfs.subrange(0, cf_names@.len() as int) =~= cfs);
    Ok(doomed)
}

/// The database names that the `db:<name>` metadata keys a scan returned
/// give, in order: each key that is text and starts with `db:`, without the
/// prefix.
pub open spec fn spec_database_names(keys: Seq<Seq<u8>>) -> Seq<Seq<char>>
    decreases keys.len(),
{
    if keys.len() == 0 {
        Seq::empty()
    } else {
        let rest = spec_database_names(keys.drop_last());
        let k = keys.last();
        let tail = k.subrange(encode_utf8("db:"@).len() as int, k.len() as int);
        if vstd::utf8::valid_utf8(k) && crate::bytes::has_prefix(k, encode_utf8("db:"@))
            && vstd::utf8::valid_utf8(tail) {
            rest.push(decode_utf8(tail))
        } else {
            rest
        }
    }
}

pub open spec fn bytes_views(keys: Seq<Vec<u8>>) -> Seq<Seq<u8>> {
    keys.map_values(|k: Vec<u8>| k@)
}

/// The databases that exist, from the metadata keys a scan of `db:`
/// returned.
pub fn database_names(meta_keys: &Vec<Vec<u8>>) -> (r: Vec<String>)
    ensures
        views(r@) == spec_database_names(bytes_views(meta_keys@)),
{
    let ghost ks = bytes_views(meta_keys@);
    let prefix = "db:".as_bytes();
    proof {
        reveal_strlit("db:");
        vstd::utf8::encode_utf8_valid_utf8("db:"@);
    }
    let mut r: Vec<String> = Vec::new();
    let mut i: usize = 0;
    while i < meta_keys.len()
        invariant
            i <= meta_keys@.len(),
            ks == bytes_views(meta_keys@),
            prefix@ == encode_utf8("db:"@),
            views(r@) == spec_database_names(ks.subrange(0, i as int)),
        decreases meta_keys@.len() - i,
    {
        let k = meta_keys[i].as_slice();
        assert(ks.subrange(0, i + 1).drop_last() =~= ks.subrange(0, i as int));
        assert(ks.subrange(0, i + 1).last() == k@);
        if crate::bytes::utf8_text(k).is_some() && crate::bytes::starts_with(k, prefix) {
            let rest = crate::bytes::tail(k, prefix.len());
            match crate::bytes::utf8_text(rest.as_slice()) {
                Some(t) => {
                    r.push(t.to_owned());
                    assert(views(r@) =~= spec_database_names(ks.subrange(0, i + 1)));
                },
                None => {},
            }
        }
        i = i + 1;
    }
    assert(ks.subrange(0, meta_keys@.len() as int) =~= ks);
    r
}

/// In order, the column families that hold collections: all but `default`
/// and `_meta`.
pub open spec fn spec_collection_names(cfs: Seq<Seq<char>>) -> Seq<Seq<char>>
    decreases cfs.len(),
{
    if cfs.len() == 0 {
        Seq::empty()
    } else {
        let rest = spec_collection_names(cfs.drop_last());
        let cf = cfs.last();
        if cf != DEFAULT_CF@ && cf != META_CF@ {
            rest.push(cf)
        } else {
            rest
        }
    }
}

/// The column families that hold collections.
pub fn collection_names(cf_names: &Vec<String>) -> (r: Vec<String>)
    ensures
        views(r@) == spec_collection_names(views(cf_names@)),
{
    let ghost cfs = views(cf_names@);
    let mut r: Vec<String> = Vec::new();
    let mut i: usize = 0;
    while i < cf_names.len()
        invariant
            i <= cf_names@.len(),
            cfs == views(cf_names@),
            views(r@) == spec_collection_names(cfs.subrange(0, i as int)),
        decreases cf_names@.len() - i,
    {
        let cf = cf_names[i].as_str();
        assert(cfs.subrange(0, i + 1).drop_last() =~= cfs.subrange(0, i as int));
        assert(cfs.subrange(0, i + 1).last() == cf@);
        if !str_equal(cf, DEFAULT_CF) && !str_equal(cf, META_CF) {
            r.push(String::from_str(cf));
            assert(views(r@) =~= spec_collection_names(cfs.subrange(0, i + 1)));
        }
        i = i + 1;
    }
    assert(cfs.subrange(0, cf_names@.len() as int) =~= cfs);
    r
}

/// Position of the first group of database `db` at or after `i`.
pub open spec fn find_group_from(g: Seq<(Seq<char>, Seq<Seq<char>>)>, db: Seq<char>, i: int) -> Option<
    int,
>
    decreases g.len() - i,
{
    if i < 0 || i >= g.len() {
        None
    } else if g[i].0 == db {
        Some(i)
    } else {
        find_group_from(g, db, i + 1)
    }
}

/// The groups after adding collection `coll` to database `db`'s group (a new
/// group goes last).
pub open spec fn group_add(g: Seq<(Seq<char>, Seq<Seq<char>>)>, db: Seq<char>, coll: Seq<char>) -> Seq<
    (Seq<char>, Seq<Seq<char>>),
> {
    match find_group_from(g, db, 0) {
        Some(i) => g.update(i, (db, g[i].1.push(coll))),
        None => g.push((db, seq![coll])),
    }
}

/// Every database's collections, grouped by database in order of first
/// appearance, from the first `n` column-family names: names scheduled for
/// drop, and names without `:`, are left out.
pub open spec fn spec_grouped(cfs: Seq<Seq<char>>, pending: Seq<Seq<char>>, n: nat) -> Seq<
    (Seq<char>, Seq<Seq<char>>),
>
    decreases n,
{
    if n == 0 || n > cfs.len() {
        Seq::empty()
    } else {
        let g = spec_grouped(cfs, pending, (n - 1) as nat);
        let cf = cfs[n - 1];
        if pending.contains(cf) {
            g
        } else {
            match split_at_colon(cf) {
                Some((db, coll)) => group_add(g, db, coll),
                None => g,
            }
        }
    }
}

pub open spec fn groups_view(r: Seq<(String, Vec<String>)>) -> Seq<(Seq<char>, Seq<Seq<char>>)> {
    r.map_values(|g: (String, Vec<String>)| (g.0@, views(g.1@)))
}

proof fn lemma_find_group(g: Seq<(Seq<char>, Seq<Seq<char>>)>, db: Seq<char>, i: int)
    requires
        0 <= i,
    ensures
        match find_group_from(g, db, i) {
            Some(p) => i <= p < g.len() && g[p].0 == db && forall|j: int| i <= j < p ==> #[trigger] g[j].0 != db,
            None => forall|j: int| i <= j < g.len() ==> #[trigger] g[j].0 != db,
        },
    decreases g.len() - i,
{
    if i < g.len() && g[i].0 != db {
        lemma_find_group(g, db, i + 1);
    }
}

/// Every database's collections, grouped by database in order of first
/// appearance, from the registered column-family names (`<db>:<coll>`),
/// leaving out those scheduled for drop and names without `:`.
pub fn group_collections(registered: &Vec<String>, pending: &Vec<String>) -> (r: Vec<
    (String, Vec<String>),
>)
    ensures
        groups_view(r@) == spec_grouped(views(registered@), views(pending@), registered@.len() as nat),
{
    let ghost cfs = views(registered@);
    let mut groups: Vec<(String, Vec<String>)> = Vec::new();
    let mut i: usize = 0;
    while i < registered.len()
        invariant
            i <= registered@.len(),
            cfs == views(registered@),
            groups_view(groups@) == spec_grouped(cfs, views(pending@), i as nat),
        decreases registered@.len() - i,
    {
        let cf = registered[i].as_str();
        assert(cfs[i as int] == cf@);
        if !contains_str(pending, cf) {
            match split_once_colon(cf) {
                Some((db, coll)) => {
                    let ghost gv = groups_view(groups@);
                    proof {
                        lemma_find_group(gv, db@, 0);
                    }
                    let mut j: usize = 0;
                    while j < groups.len() && !str_equal(groups[j].0.as_str(), db.as_str())
                        invariant
                            j <= groups@.len(),
                            gv == groups_view(groups@),
                            find_group_from(gv, db@, 0) == find_group_from(gv, db@, j as int),
                        decreases groups@.len() - j,
                    {
                        j = j + 1;
                    }
                    if j < groups.len() {
                        assert(gv[j as int].0 == db@);
                        assert(find_group_from(gv, db@, 0) == Some(j as int));
                        let ghost before = groups@;
                        let (name, mut colls) = groups.remove(j);
                        let ghost removed = groups@;
                        assert(name@ == db@);
                        assert(views(colls@) == gv[j as int].1);
                        colls.push(coll);
                        assert(views(colls@) =~= gv[j as int].1.push(coll@));
                        groups.insert(j, (name, colls));
                        proof {
                            let want = group_add(gv, db@, coll@);
                            assert(want == gv.update(j as int, (db@, gv[j as int].1.push(coll@))));
                            assert forall|k: int| 0 <= k < groups@.len() implies #[trigger] groups_view(groups@)[k]
                                == want[k] by {
                                if k < j {
                                    assert(groups@[k] == removed[k]);
                                    assert(removed[k] == before[k]);
                                } else if k > j {
                                    assert(groups@[k] == removed[k - 1]);
                                    assert(removed[k - 1] == before[k]);
                                }
                            }
                            assert(groups_view(groups@) =~= want);
                        }
                    } else {
                        assert(find_group_from(gv, db@, j as int) is None);
                        let mut colls: Vec<String> = Vec::new();
                        colls.push(coll);
                        groups.push((db, colls));
                        assert(views(colls@) =~= seq![coll@]);
                        assert(groups_view(groups@) =~= group_add(gv, db@, coll@));
                    }
                },
                None => {},
            }
        }
        i = i + 1;
    }
    groups
}

} // verus!
