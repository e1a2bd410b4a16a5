use accounting_backend::error::Error;
use accounting_backend::models::{CompanyInfo, CreateCompany, CreateFunder, FunderUpdate, UpdateCompany};
use accounting_backend::store::LocalStorageAccountingApi;

fn info(email: &str) -> CompanyInfo {
    CompanyInfo {
        owner: String::new(),
        commercial_feature: String::new(),
        is_working: false,
        legal_entity: None,
        file_number: None,
        register_number: None,
        start_date: None,
        stop_date: None,
        general_tax_mission: None,
        value_tax_mission: None,
        activity_nature: None,
        activity_location: None,
        record_number: None,
        username: None,
        password: None,
        email: Some(email.to_string()),
    }
}

fn named(name: &str) -> CompanyInfo {
    let mut i = info("email");
    i.commercial_feature = name.to_string();
    i
}

#[test]
fn create_company_test() {
    let mut store = LocalStorageAccountingApi::new();
    let request = CreateCompany { info: info("email"), funder: Some(CreateFunder { name: String::new() }) };
    let company = store.create_company(&request).unwrap();
    assert_eq!(company.info.email.as_deref(), Some("email"));
    assert!(!company.info.is_working);
    assert_eq!(store.get_funders(company.id).len(), 1);
}

#[test]
fn search_company_test() {
    let mut store = LocalStorageAccountingApi::new();
    for name in ["Mina", "Fadi", "Shady"] {
        let request = CreateCompany { info: info("email"), funder: Some(CreateFunder { name: name.to_string() }) };
        store.create_company(&request).unwrap();
    }
    let found = store.search_company("ad").unwrap();
    assert_eq!(found.len(), 2);
}

#[test]
fn update_company_test() {
    let mut store = LocalStorageAccountingApi::new();
    let request = CreateCompany { info: info("email"), funder: Some(CreateFunder { name: String::new() }) };
    let company = store.create_company(&request).unwrap();
    let mut changed = company.info.clone();
    changed.is_working = true;
    changed.username = Some("new email".to_string());
    let updated = store
        .update_company(company.id, &UpdateCompany { info: changed.clone(), funders: vec![] })
        .unwrap();
    assert_eq!(updated.company.info.email, changed.email);
    assert_eq!(updated.company.info.is_working, changed.is_working);
    assert_eq!(updated.company.info.username.as_deref(), Some("new email"));
}

#[test]
fn search_ignores_case() {
    let mut store = LocalStorageAccountingApi::new();
    let request = CreateCompany { info: named("Nile Trading"), funder: Some(CreateFunder { name: "Mina".to_string() }) };
    store.create_company(&request).unwrap();
    assert_eq!(store.search_company("NILE").unwrap().len(), 1);
    assert_eq!(store.search_company("nile").unwrap().len(), 1);
    assert_eq!(store.search_company("MINA").unwrap().len(), 1);
    assert_eq!(store.search_company_folded("nile").unwrap().len(), 1);
    assert!(matches!(store.search_company_folded("NILE"), Err(Error::ObjectNotFound)));
}

#[test]
fn search_matches_id_text() {
    let mut store = LocalStorageAccountingApi::new();
    let a = store.create_company(&CreateCompany { info: named("Alpha"), funder: None }).unwrap();
    let b = store.create_company(&CreateCompany { info: named("Beta"), funder: None }).unwrap();
    assert_eq!(a.id, 1);
    assert_eq!(b.id, 2);
    let found = store.search_company("2").unwrap();
    assert_eq!(found.len(), 1);
    assert_eq!(found[0].id, 2);
}

#[test]
fn search_without_match_is_not_found() {
    let mut store = LocalStorageAccountingApi::new();
    assert!(matches!(store.search_company("x"), Err(Error::ObjectNotFound)));
    store.create_company(&CreateCompany { info: named("Alpha"), funder: None }).unwrap();
    assert!(matches!(store.search_company("zzz"), Err(Error::ObjectNotFound)));
}

#[test]
fn search_lists_company_once_for_many_funders() {
    let mut store = LocalStorageAccountingApi::new();
    let c = store
        .create_company(&CreateCompany { info: named("Alpha"), funder: Some(CreateFunder { name: "Sara".to_string() }) })
        .unwrap();
    store.create_funder(c.id, &CreateFunder { name: "Samir".to_string() }).unwrap();
    let found = store.search_company("sa").unwrap();
    assert_eq!(found.len(), 1);
}

#[test]
fn update_with_same_values_changes_nothing() {
    let mut store = LocalStorageAccountingApi::new();
    let c = store
        .create_company(&CreateCompany { info: named("Alpha"), funder: Some(CreateFunder { name: "Sara".to_string() }) })
        .unwrap();
    let funders = store.get_funders(c.id);
    let ups = funders.iter().map(|f| FunderUpdate { id: Some(f.id), name: f.name.clone() }).collect();
    let again = store.update_company(c.id, &UpdateCompany { info: c.info.clone(), funders: ups }).unwrap();
    assert_eq!(again.company.id, c.id);
    assert_eq!(again.company.info.commercial_feature, "Alpha");
    assert_eq!(again.company.info.email, c.info.email);
    assert_eq!(again.funders.len(), 1);
    assert_eq!(again.funders[0].id, funders[0].id);
    let after = store.get_funders(c.id);
    assert_eq!(after.len(), 1);
    assert_eq!(after[0].id, funders[0].id);
    assert_eq!(after[0].name, "Sara");
}

#[test]
fn update_renames_and_adds_funders() {
    let mut store = LocalStorageAccountingApi::new();
    let c = store
        .create_company(&CreateCompany { info: named("Alpha"), funder: Some(CreateFunder { name: "Sara".to_string() }) })
        .unwrap();
    let sara = store.get_funders(c.id)[0].id;
    let ups = vec![
        FunderUpdate { id: Some(sara), name: "Sarah".to_string() },
        FunderUpdate { id: None, name: "Omar".to_string() },
        FunderUpdate { id: Some(999), name: "Hany".to_string() },
    ];
    let updated = store.update_company(c.id, &UpdateCompany { info: named("Alpha"), funders: ups }).unwrap();
    assert_eq!(updated.funders.len(), 3);
    assert_eq!(updated.funders[0].id, sara);
    assert_eq!(updated.funders[0].name, "Sarah");
    assert_eq!(updated.funders[1].name, "Omar");
    assert_eq!(updated.funders[1].company_id, c.id);
    assert_ne!(updated.funders[2].id, 999);
    let names: Vec<String> = store.get_funders(c.id).into_iter().map(|f| f.name).collect();
    assert_eq!(names, vec!["Sarah".to_string(), "Omar".to_string(), "Hany".to_string()]);
}

#[test]
fn update_of_missing_company_is_not_found() {
    let mut store = LocalStorageAccountingApi::new();
    let r = store.update_company(7, &UpdateCompany { info: named("X"), funders: vec![] });
    assert!(matches!(r, Err(Error::ObjectNotFound)));
}

#[test]
fn delete_company_drops_funders_and_documents() {
    let mut store = LocalStorageAccountingApi::new();
    let c = store
        .create_company(&CreateCompany { info: named("Alpha"), funder: Some(CreateFunder { name: "Sara".to_string() }) })
        .unwrap();
    let d = store.create_company(&CreateCompany { info: named("Beta"), funder: Some(CreateFunder { name: "Omar".to_string() }) }).unwrap();
    store.create_document_at(c.id, "a.pdf", 5).unwrap();
    store.delete_company(c.id).unwrap();
    assert!(store.get_funders(c.id).is_empty());
    assert!(matches!(store.get_documents(c.id), Err(Error::ObjectNotFound)));
    assert_eq!(store.get_funders(d.id).len(), 1);
    assert!(matches!(store.delete_company(c.id), Err(Error::ObjectNotFound)));
}

#[test]
fn funders_are_listed_and_deleted() {
    let mut store = LocalStorageAccountingApi::new();
    let c = store.create_company(&CreateCompany { info: named("Alpha"), funder: None }).unwrap();
    assert!(matches!(store.create_funder(99, &CreateFunder { name: "X".to_string() }), Err(Error::ObjectNotFound)));
    let f = store.create_funder(c.id, &CreateFunder { name: "Sara".to_string() }).unwrap();
    assert_eq!(f.company_id, c.id);
    assert_eq!(store.get_funders(c.id).len(), 1);
    store.delete_funder(f.id).unwrap();
    assert!(store.get_funders(c.id).is_empty());
    assert!(matches!(store.delete_funder(f.id), Err(Error::ObjectNotFound)));
}

#[test]
fn update_renames_a_funder_by_id() {
    let mut store = LocalStorageAccountingApi::new();
    let a = store
        .create_company(&CreateCompany { info: named("Alpha"), funder: Some(CreateFunder { name: "Sara".to_string() }) })
        .unwrap();
    let b = store.create_company(&CreateCompany { info: named("Beta"), funder: None }).unwrap();
    let sara = store.get_funders(a.id)[0].id;
    let ups = vec![FunderUpdate { id: Some(sara), name: "Sarah".to_string() }];
    let updated = store.update_company(b.id, &UpdateCompany { info: named("Beta"), funders: ups }).unwrap();
    assert_eq!(updated.funders[0].id, sara);
    assert_eq!(updated.funders[0].company_id, a.id);
    assert_eq!(store.get_funders(a.id)[0].name, "Sarah");
    assert!(store.get_funders(b.id).is_empty());
}
