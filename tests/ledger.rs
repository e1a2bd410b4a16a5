use accounting_backend::auth::{AGuard, ApiTokenError, Outcome, UGuard};
use accounting_backend::error::Error;
use accounting_backend::file_system::{company_dir_of, document_path_of, FileSystem};
use accounting_backend::ids::Uuid;
use accounting_backend::models::{
    CompanyInfo, CreateCompany, CreateExpense, CreateIncome, LoginUser, RegisterUser, UpdateUser,
};
use accounting_backend::response::ResponseEnum;
use accounting_backend::store::LocalStorageAccountingApi;
use accounting_backend::text::push_signed_decimal;

fn named(name: &str) -> CompanyInfo {
    CompanyInfo {
        owner: String::new(),
        commercial_feature: name.to_string(),
        is_working: true,
        legal_entity: None,
        file_number: None,
        register_number: None,
        start_date: Some(0),
        stop_date: None,
        general_tax_mission: None,
        value_tax_mission: None,
        activity_nature: None,
        activity_location: None,
        record_number: None,
        username: None,
        password: None,
        email: None,
    }
}

fn user(store: &mut LocalStorageAccountingApi, name: &str, balance: i64) -> i64 {
    let u = store
        .register_user(&RegisterUser { name: name.to_string(), password: "pw".to_string(), is_admin: false })
        .unwrap();
    assert_eq!(u.value, 0);
    store.pay_user(u.id, balance).unwrap();
    u.id
}

fn company(store: &mut LocalStorageAccountingApi, name: &str) -> i64 {
    store.create_company(&CreateCompany { info: named(name), funder: None }).unwrap().id
}

fn expense(value: i64) -> CreateExpense {
    CreateExpense { value, description: "rent".to_string() }
}

#[test]
fn expense_then_delete_round_trip() {
    let mut store = LocalStorageAccountingApi::new();
    let u = user(&mut store, "U", 100);
    let c = company(&mut store, "C");
    let e = store.create_expense(u, c, &expense(40)).unwrap();
    assert_eq!(store.get_user(u).unwrap().value, 60);
    let rows = store.get_expenses(Some(u), Some(c));
    assert_eq!(rows.len(), 1);
    assert_eq!(rows[0].id, e.id);
    assert_eq!(rows[0].user, "U");
    assert_eq!(rows[0].company, "C");
    assert_eq!(rows[0].value, 40);
    store.delete_expense(e.id).unwrap();
    assert_eq!(store.get_user(u).unwrap().value, 100);
    assert!(store.get_expenses(Some(u), Some(c)).is_empty());
}

#[test]
fn expense_debits_exactly_its_value() {
    let mut store = LocalStorageAccountingApi::new();
    let u = user(&mut store, "U", 250);
    let other = user(&mut store, "V", 10);
    let c = company(&mut store, "C");
    let e = store.create_expense_at(u, c, &expense(75), 1234).unwrap();
    assert_eq!(e.time, 1234);
    assert_eq!(e.description, "rent");
    assert_eq!(store.get_user(u).unwrap().value, 175);
    assert_eq!(store.get_user(other).unwrap().value, 10);
    assert_eq!(store.get_expenses(None, None).len(), 1);
}

#[test]
fn expense_of_whole_balance_is_allowed() {
    let mut store = LocalStorageAccountingApi::new();
    let u = user(&mut store, "U", 30);
    let c = company(&mut store, "C");
    store.create_expense(u, c, &expense(30)).unwrap();
    assert_eq!(store.get_user(u).unwrap().value, 0);
}

#[test]
fn expense_refusals_change_nothing() {
    let mut store = LocalStorageAccountingApi::new();
    let u = user(&mut store, "U", 50);
    let c = company(&mut store, "C");
    assert!(matches!(store.create_expense(u, c, &expense(0)), Err(Error::InvalidValue)));
    assert!(matches!(store.create_expense(u, c, &expense(-5)), Err(Error::InvalidValue)));
    assert!(matches!(store.create_expense(u, c, &expense(51)), Err(Error::NotEnoughUserValue(51, 50))));
    assert!(matches!(store.create_expense(u + 100, c, &expense(1)), Err(Error::ObjectNotFound)));
    assert!(matches!(store.create_expense(u, c + 100, &expense(1)), Err(Error::ObjectNotFound)));
    assert_eq!(store.get_user(u).unwrap().value, 50);
    assert!(store.get_expenses(None, None).is_empty());
}

#[test]
fn second_full_debit_is_refused() {
    let mut store = LocalStorageAccountingApi::new();
    let u = user(&mut store, "U", 80);
    let c = company(&mut store, "C");
    assert!(store.create_expense(u, c, &expense(80)).is_ok());
    assert!(matches!(store.create_expense(u, c, &expense(80)), Err(Error::NotEnoughUserValue(80, 0))));
    assert_eq!(store.get_user(u).unwrap().value, 0);
    assert_eq!(store.get_expenses(Some(u), None).len(), 1);
}

#[test]
fn delete_expense_errors() {
    let mut store = LocalStorageAccountingApi::new();
    assert!(matches!(store.delete_expense(3), Err(Error::ObjectNotFound)));
    let u = user(&mut store, "U", 10);
    let c = company(&mut store, "C");
    let e = store.create_expense(u, c, &expense(10)).unwrap();
    store.pay_user(u, i64::MAX).unwrap();
    assert!(matches!(store.delete_expense(e.id), Err(Error::InvalidValue)));
    assert_eq!(store.get_expenses(None, None).len(), 1);
}

#[test]
fn delete_expense_of_deleted_user_only_drops_row() {
    let mut store = LocalStorageAccountingApi::new();
    let u = user(&mut store, "U", 10);
    let c = company(&mut store, "C");
    let e = store.create_expense(u, c, &expense(4)).unwrap();
    store.delete_user(u).unwrap();
    let rows = store.get_expenses(None, None);
    assert_eq!(rows[0].user, "");
    store.delete_expense(e.id).unwrap();
    assert!(store.get_expenses(None, None).is_empty());
}

#[test]
fn expense_filters() {
    let mut store = LocalStorageAccountingApi::new();
    let u = user(&mut store, "U", 100);
    let v = user(&mut store, "V", 100);
    let c = company(&mut store, "C");
    let d = company(&mut store, "D");
    store.create_expense(u, c, &expense(1)).unwrap();
    store.create_expense(u, d, &expense(2)).unwrap();
    store.create_expense(v, c, &expense(3)).unwrap();
    assert_eq!(store.get_expenses(None, None).len(), 3);
    assert_eq!(store.get_expenses(Some(u), None).len(), 2);
    assert_eq!(store.get_expenses(None, Some(c)).len(), 2);
    let one = store.get_expenses(Some(v), Some(c));
    assert_eq!(one.len(), 1);
    assert_eq!(one[0].value, 3);
    assert!(store.get_expenses(Some(v), Some(d)).is_empty());
}

#[test]
fn incomes_do_not_touch_balances() {
    let mut store = LocalStorageAccountingApi::new();
    let admin = store
        .register_user(&RegisterUser { name: "boss".to_string(), password: "pw".to_string(), is_admin: true })
        .unwrap();
    let c = company(&mut store, "C");
    let i = store
        .create_income(admin.id, c, &CreateIncome { value: 500, description: "sale".to_string() })
        .unwrap();
    assert_eq!(i.admin, "boss");
    assert_eq!(i.company, "C");
    assert_eq!(store.get_user(admin.id).unwrap().value, 0);
    assert_eq!(store.get_incomes(Some(admin.id), None).len(), 1);
    assert!(matches!(
        store.create_income_at(admin.id, c, &CreateIncome { value: 0, description: String::new() }, 1),
        Err(Error::InvalidValue)
    ));
    assert!(matches!(
        store.create_income_at(admin.id, 999, &CreateIncome { value: 3, description: String::new() }, 1),
        Err(Error::ObjectNotFound)
    ));
    store.delete_income(i.id).unwrap();
    assert!(store.get_incomes(None, None).is_empty());
    assert!(matches!(store.delete_income(i.id), Err(Error::ObjectNotFound)));
}

#[test]
fn users_register_update_login_delete() {
    let mut store = LocalStorageAccountingApi::new();
    let u = store
        .register_user(&RegisterUser { name: "mina".to_string(), password: "one".to_string(), is_admin: false })
        .unwrap();
    assert_eq!(u.id, 1);
    let changed = store
        .update_user(u.id, &UpdateUser { name: "mina2".to_string(), password: "two".to_string(), is_admin: true })
        .unwrap();
    assert_eq!(changed.name, "mina2");
    assert!(!changed.is_admin);
    assert!(matches!(
        store.login_user(&LoginUser { name: "mina".to_string(), password: "one".to_string() }),
        Err(Error::ObjectNotFound)
    ));
    let logged = store.login_user(&LoginUser { name: "mina2".to_string(), password: "two".to_string() }).unwrap();
    assert_eq!(logged.id, u.id);
    assert_eq!(store.get_users().len(), 1);
    assert!(matches!(store.pay_user(u.id, -1), Err(Error::InvalidValue)));
    assert!(matches!(store.pay_user(42, 1), Err(Error::ObjectNotFound)));
    assert_eq!(store.pay_user(u.id, 9).unwrap().value, 9);
    store.delete_user(u.id).unwrap();
    assert!(matches!(store.get_user(u.id), Err(Error::ObjectNotFound)));
    assert!(matches!(store.delete_user(u.id), Err(Error::ObjectNotFound)));
    assert!(matches!(store.update_user(u.id, &UpdateUser { name: String::new(), password: String::new(), is_admin: false }), Err(Error::ObjectNotFound)));
}

#[test]
fn documents_have_derived_paths() {
    let mut store = LocalStorageAccountingApi::new();
    let c = company(&mut store, "C");
    let d = store.create_document_at(c, "report.pdf", 77).unwrap();
    assert_eq!(d.id, 2);
    assert_eq!(d.path, "companies/1/documents/2_report.pdf");
    assert_eq!(d.time, 77);
    let listed = store.get_documents(c).unwrap();
    assert_eq!(listed.len(), 1);
    assert_eq!(listed[0].path, d.path);
    assert!(matches!(store.create_document_at(9, "x", 1), Err(Error::ObjectNotFound)));
    let gone = store.delete_document(d.id).unwrap();
    assert_eq!(gone.path, "companies/1/documents/2_report.pdf");
    assert!(store.get_documents(c).unwrap().is_empty());
    assert!(matches!(store.delete_document(d.id), Err(Error::ObjectNotFound)));
    assert!(matches!(store.get_documents(c + 50), Err(Error::ObjectNotFound)));
}

#[test]
fn failed_upload_drops_the_record() {
    let mut store = LocalStorageAccountingApi::new();
    let c = company(&mut store, "C");
    let d = store.create_document_at(c, "a.txt", 1).unwrap();
    let kept = store.settle_upload(d, None).unwrap();
    assert_eq!(store.get_documents(c).unwrap().len(), 1);
    let e = store.create_document_at(c, "b.txt", 2).unwrap();
    let r = store.settle_upload(e, Some("disk full".to_string()));
    assert!(matches!(r, Err(Error::Io(ref m)) if m == "disk full"));
    let left = store.get_documents(c).unwrap();
    assert_eq!(left.len(), 1);
    assert_eq!(left[0].id, kept.id);
}

#[test]
fn paths_and_decimals() {
    assert_eq!(document_path_of(12, 345, "a b.png"), "companies/12/documents/345_a b.png");
    assert_eq!(company_dir_of(-3), "companies/-3");
    let fs = FileSystem { root: "/data".to_string() };
    assert_eq!(fs.full_path("companies/1"), "/data/companies/1");
    let mut s = String::new();
    push_signed_decimal(&mut s, i64::MIN);
    assert_eq!(s, i64::MIN.to_string());
    let mut z = String::new();
    push_signed_decimal(&mut z, 0);
    assert_eq!(z, "0");
}

#[test]
fn error_messages_and_responses() {
    assert_eq!(Error::NotEnoughUserValue(5, 3).message(), "لا يوجد قيمة كافية: \"5 > 3\"");
    assert_eq!(Error::Other("down".to_string()).message(), "حدث خطأ في قاعدة البيانات:\n down");
    let r: ResponseEnum<u8> = ResponseEnum::from_error(&Error::ObjectNotFound);
    match r {
        ResponseEnum::NotFound(c) => {
            assert!(!c.status);
            assert_eq!(c.message, "لم يتم العثور علي هدف");
            assert!(c.data.is_none());
        },
        _ => panic!("expected a not-found answer"),
    }
    let r: ResponseEnum<u8> = ResponseEnum::from_error(&Error::InvalidValue);
    assert!(matches!(r, ResponseEnum::Internal(_)));
    match ResponseEnum::ok(7u8, "fine".to_string()) {
        ResponseEnum::Success(c) => {
            assert!(c.status);
            assert_eq!(c.data, Some(7));
        },
        _ => panic!("expected a success answer"),
    }
    assert!(matches!(ResponseEnum::created(1u8, String::new()), ResponseEnum::Created(_)));
    assert!(matches!(ResponseEnum::<u8>::not_found(String::new()), ResponseEnum::NotFound(_)));
    assert!(matches!(ResponseEnum::<u8>::no_content(String::new()), ResponseEnum::NoContent(_)));
    assert!(matches!(ResponseEnum::<u8>::unauthorized(String::new()), ResponseEnum::Unauthorized(_)));
    assert!(matches!(ResponseEnum::<u8>::internal(String::new()), ResponseEnum::Internal(_)));
}

#[test]
fn guards_decide_on_claims() {
    assert!(matches!(AGuard::from_claims(false, None), Outcome::Failure(400, ApiTokenError::Missing)));
    assert!(matches!(AGuard::from_claims(true, None), Outcome::Failure(401, ApiTokenError::Invalid)));
    assert!(matches!(AGuard::from_claims(true, Some((4, true))), Outcome::Success(AGuard(4))));
    assert!(matches!(AGuard::from_claims(true, Some((4, false))), Outcome::Forward));
    assert!(matches!(UGuard::from_claims(true, Some((4, false))), Outcome::Success(UGuard(4))));
    assert!(matches!(UGuard::from_claims(false, Some((4, false))), Outcome::Failure(400, ApiTokenError::Missing)));
}

#[test]
fn uuids_are_random_version_four() {
    let a = Uuid::new();
    let b = Uuid::new();
    assert_ne!(a.0, b.0);
    assert_eq!((a.0 >> 76) & 0xf, 4);
    assert_eq!((a.0 >> 62) & 3, 2);
}

#[test]
fn clock_stamps_recent_times() {
    let mut store = LocalStorageAccountingApi::new();
    let u = user(&mut store, "U", 10);
    let c = company(&mut store, "C");
    let e = store.create_expense(u, c, &expense(1)).unwrap();
    assert!(e.time > 1_600_000_000_000);
}

#[test]
fn holdings_are_kept_by_expenses() {
    let mut store = LocalStorageAccountingApi::new();
    let u = user(&mut store, "U", 100);
    let c = company(&mut store, "C");
    let a = store.create_expense(u, c, &expense(30)).unwrap();
    store.create_expense(u, c, &expense(20)).unwrap();
    let spent: i64 = store.get_expenses(Some(u), None).iter().map(|e| e.value).sum();
    assert_eq!(store.get_user(u).unwrap().value + spent, 100);
    store.delete_expense(a.id).unwrap();
    let spent: i64 = store.get_expenses(Some(u), None).iter().map(|e| e.value).sum();
    assert_eq!(store.get_user(u).unwrap().value, 80);
    assert_eq!(store.get_user(u).unwrap().value + spent, 100);
}

#[test]
fn failed_removal_puts_the_record_back() {
    let mut store = LocalStorageAccountingApi::new();
    let c = company(&mut store, "C");
    let d = store.create_document_at(c, "a.txt", 3).unwrap();
    let gone = store.delete_document(d.id).unwrap();
    assert!(store.settle_removal(&gone, None).is_ok());
    assert!(store.get_documents(c).unwrap().is_empty());
    let e = store.create_document_at(c, "b.txt", 4).unwrap();
    let gone = store.delete_document(e.id).unwrap();
    let r = store.settle_removal(&gone, Some("busy".to_string()));
    assert!(matches!(r, Err(Error::Io(ref m)) if m == "busy"));
    let back = store.get_documents(c).unwrap();
    assert_eq!(back.len(), 1);
    assert_eq!(back[0].id, e.id);
    assert_eq!(back[0].path, e.path);
    assert_eq!(back[0].time, 4);
}
