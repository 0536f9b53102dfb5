use solidb_storage::catalog::{
    collection_names, contains_char, create_database, database_names, delete_database,
    group_collections, split_once_colon, Catalog, CatalogError, Database,
};

fn s(x: &str) -> String {
    x.to_string()
}

fn strings(xs: &[&str]) -> Vec<String> {
    xs.iter().map(|x| x.to_string()).collect()
}

#[test]
fn test_create_collection() {
    let mut catalog = Catalog::new();
    let database = Database::new("testdb".to_string());

    assert!(database.create_collection(&mut catalog, "users".to_string()).is_ok());
    assert!(database.list_collections(&catalog).contains(&"users".to_string()));
}

#[test]
fn test_create_duplicate_collection() {
    let mut catalog = Catalog::new();
    let database = Database::new("testdb".to_string());

    database.create_collection(&mut catalog, "users".to_string()).unwrap();
    assert!(database.create_collection(&mut catalog, "users".to_string()).is_err());
}

#[test]
fn test_delete_collection() {
    let mut catalog = Catalog::new();
    let database = Database::new("testdb".to_string());

    database.create_collection(&mut catalog, "users".to_string()).unwrap();
    assert!(database.delete_collection(&mut catalog, "users").is_ok());
    assert!(!database.list_collections(&catalog).contains(&"users".to_string()));
}

#[test]
fn test_list_collections() {
    let mut catalog = Catalog::new();
    let database = Database::new("testdb".to_string());

    database.create_collection(&mut catalog, "users".to_string()).unwrap();
    database.create_collection(&mut catalog, "products".to_string()).unwrap();

    let collections = database.list_collections(&catalog);
    assert_eq!(collections.len(), 2);
    assert!(collections.contains(&"users".to_string()));
    assert!(collections.contains(&"products".to_string()));
}

#[test]
fn databases_see_only_their_own_collections() {
    let mut catalog = Catalog { names: strings(&["default", "_meta"]) };
    let app = Database::new(s("app"));
    let app_test = Database::new(s("app_test"));
    app.create_collection(&mut catalog, s("users")).unwrap();
    app_test.create_collection(&mut catalog, s("orders")).unwrap();
    assert_eq!(app.list_collections(&catalog), strings(&["users"]));
    assert_eq!(app_test.list_collections(&catalog), strings(&["orders"]));
    assert_eq!(catalog.names, strings(&["default", "_meta", "app:users", "app_test:orders"]));
}

#[test]
fn get_and_get_or_create() {
    let mut catalog = Catalog::new();
    let db = Database::new(s("d"));
    assert_eq!(
        db.get_collection(&catalog, "x").err(),
        Some(CatalogError::CollectionNotFound(s("x")))
    );
    assert_eq!(db.get_or_create_collection(&mut catalog, "x").unwrap().name, "d:x");
    assert_eq!(db.get_collection(&catalog, "x").unwrap().name, "d:x");
    assert_eq!(catalog.names, strings(&["d:x"]));
    assert_eq!(db.get_or_create_collection(&mut catalog, "x").unwrap().name, "d:x");
    assert_eq!(catalog.names, strings(&["d:x"]));
    assert_eq!(
        db.delete_collection(&mut catalog, "y"),
        Err(CatalogError::CollectionNotFound(s("y")))
    );
    assert_eq!(
        db.create_collection(&mut catalog, s("x")),
        Err(CatalogError::CollectionAlreadyExists(s("x")))
    );
}

#[test]
fn columnar_collections_have_their_own_column_family() {
    let catalog = Catalog { names: strings(&["d:_columnar_metrics"]) };
    let db = Database::new(s("d"));
    assert_eq!(db.columnar_cf_name("metrics"), "d:_columnar_metrics");
    assert!(db.is_columnar_collection(&catalog, "metrics"));
    assert!(!db.is_columnar_collection(&catalog, "other"));
}

#[test]
fn database_names_are_checked() {
    let existing = strings(&["_system", "shop"]);
    assert_eq!(
        create_database(&existing, ""),
        Err(CatalogError::InvalidDocument(s("Invalid database name")))
    );
    assert_eq!(
        create_database(&existing, "a:b"),
        Err(CatalogError::InvalidDocument(s("Invalid database name")))
    );
    assert_eq!(
        create_database(&existing, "shop"),
        Err(CatalogError::CollectionAlreadyExists(s("Database 'shop' already exists")))
    );
    assert_eq!(create_database(&existing, "blog"), Ok(()));
    assert!(contains_char("a:b", ':'));
    assert!(!contains_char("ab", ':'));
}

#[test]
fn deleting_a_database_dooms_its_column_families() {
    let dbs = strings(&["_system", "shop"]);
    let cfs = strings(&["default", "shop:a", "shop:b", "shopx:c", "_system:u"]);
    let pending = strings(&["shop:b"]);
    assert_eq!(delete_database(&dbs, "shop", &cfs, &pending), Ok(strings(&["shop:a"])));
    assert_eq!(
        delete_database(&dbs, "_system", &cfs, &pending),
        Err(CatalogError::InvalidDocument(s("Cannot delete _system database")))
    );
    assert_eq!(
        delete_database(&dbs, "nope", &cfs, &pending),
        Err(CatalogError::CollectionNotFound(s("Database 'nope' not found")))
    );
}

#[test]
fn database_names_come_from_db_keys() {
    let keys = vec![b"db:shop".to_vec(), b"dbx".to_vec(), vec![b'd', b'b', b':', 0xff], b"db:".to_vec()];
    assert_eq!(database_names(&keys), strings(&["shop", ""]));
}

#[test]
fn engine_lists_collection_column_families() {
    let cfs = strings(&["default", "_meta", "a:b", "c:d"]);
    assert_eq!(collection_names(&cfs), strings(&["a:b", "c:d"]));
}

#[test]
fn collections_grouped_by_database() {
    let registered = strings(&["a:x", "b:y", "a:z", "plain", "b:gone", "a:w:v"]);
    let pending = strings(&["b:gone"]);
    let grouped = group_collections(&registered, &pending);
    assert_eq!(
        grouped,
        vec![(s("a"), strings(&["x", "z", "w:v"])), (s("b"), strings(&["y"]))]
    );
    assert_eq!(split_once_colon("a:b:c"), Some((s("a"), s("b:c"))));
    assert_eq!(split_once_colon("abc"), None);
}
