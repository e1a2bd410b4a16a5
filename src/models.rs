//! The records of the ledger, the requests that create or change them, and the
//! views handed back to callers.

use vstd::prelude::*;
use crate::table::Keyed;

verus! {

/// Copies an optional text.
pub fn clone_text(o: &Option<String>) -> (r: Option<String>)
    ensures
        r == *o,
{
    match o {
        Some(s) => Some(s.clone()),
        None => None,
    }
}

/// A user: a login, a role and a balance. Amounts are in minor currency units.
#[derive(Debug)]
pub struct User {
    pub id: i64,
    pub name: String,
    pub password: String,
    pub is_admin: bool,
    pub value: i64,
}

impl Clone for User {
    fn clone(&self) -> (r: Self)
        ensures
            r == *self,
    {
        User {
            id: self.id,
            name: self.name.clone(),
            password: self.password.clone(),
            is_admin: self.is_admin,
            value: self.value,
        }
    }
}

impl Keyed for User {
    open spec fn key(&self) -> i64 {
        self.id
    }

    fn id(&self) -> (r: i64) {
        self.id
    }
}

/// A request to register a user; a new user starts with a balance of zero.
#[derive(Debug)]
pub struct RegisterUser {
    pub name: String,
    pub password: String,
    pub is_admin: bool,
}

/// The credentials a user logs in with.
#[derive(Debug)]
pub struct LoginUser {
    pub name: String,
    pub password: String,
}

/// A request to change a user's name and password.
#[derive(Debug)]
pub struct UpdateUser {
    pub name: String,
    pub password: String,
    pub is_admin: bool,
}

/// The business-registration attributes of a company. They are carried as they
/// are given; dates are milliseconds since the Unix epoch, in UTC.
#[derive(Debug)]
pub struct CompanyInfo {
    pub owner: String,
    pub commercial_feature: String,
    pub is_working: bool,
    pub legal_entity: Option<String>,
    pub file_number: Option<String>,
    pub register_number: Option<String>,
    pub start_date: Option<i64>,
    pub stop_date: Option<i64>,
    pub general_tax_mission: Option<String>,
    pub value_tax_mission: Option<String>,
    pub activity_nature: Option<String>,
    pub activity_location: Option<String>,
    pub record_number: Option<String>,
    pub username: Option<String>,
    pub password: Option<String>,
    pub email: Option<String>,
}

impl Clone for CompanyInfo {
    fn clone(&self) -> (r: Self)
        ensures
            r == *self,
    {
        CompanyInfo {
            owner: self.owner.clone(),
            commercial_feature: self.commercial_feature.clone(),
            is_working: self.is_working,
            legal_entity: clone_text(&self.legal_entity),
            file_number: clone_text(&self.file_number),
            register_number: clone_text(&self.register_number),
            start_date: self.start_date,
            stop_date: self.stop_date,
            general_tax_mission: clone_text(&self.general_tax_mission),
            value_tax_mission: clone_text(&self.value_tax_mission),
            activity_nature: clone_text(&self.activity_nature),
            activity_location: clone_text(&self.activity_location),
            record_number: clone_text(&self.record_number),
            username: clone_text(&self.username),
            password: clone_text(&self.password),
            email: clone_text(&self.email),
        }
    }
}

/// A company: an id and its attributes.
#[derive(Debug)]
pub struct Company {
    pub id: i64,
    pub info: CompanyInfo,
}

impl Clone for Company {
    fn clone(&self) -> (r: Self)
        ensures
            r == *self,
    {
        Company { id: self.id, info: self.info.clone() }
    }
}

impl Keyed for Company {
    open spec fn key(&self) -> i64 {
        self.id
    }

    fn id(&self) -> (r: i64) {
        self.id
    }
}

/// A request to create a company, with the first funder to create beside it, if any.
#[derive(Debug)]
pub struct CreateCompany {
    pub info: CompanyInfo,
    pub funder: Option<CreateFunder>,
}

/// One funder in a company update: with the id of an existing funder it
/// renames that funder, otherwise it adds a funder to the company.
#[derive(Debug)]
pub struct FunderUpdate {
    pub id: Option<i64>,
    pub name: String,
}

/// A request to replace a company's attributes and to add or rename funders.
#[derive(Debug)]
pub struct UpdateCompany {
    pub info: CompanyInfo,
    pub funders: Vec<FunderUpdate>,
}

/// A company as an update leaves it, with the funder row that each funder
/// update produced, in the order of the updates.
#[derive(Debug)]
pub struct UpdatedCompany {
    pub company: Company,
    pub funders: Vec<Funder>,
}

/// A named backer of one company.
#[derive(Debug)]
pub struct Funder {
    pub id: i64,
    pub name: String,
    pub company_id: i64,
}

impl Clone for Funder {
    fn clone(&self) -> (r: Self)
        ensures
            r == *self,
    {
        Funder { id: self.id, name: self.name.clone(), company_id: self.company_id }
    }
}

impl Keyed for Funder {
    open spec fn key(&self) -> i64 {
        self.id
    }

    fn id(&self) -> (r: i64) {
        self.id
    }
}

/// A request to add a funder to a company.
#[derive(Debug)]
pub struct CreateFunder {
    pub name: String,
}

/// A stored expense: value moved from a user to a company.
#[derive(Debug)]
pub struct ExpenseRow {
    pub id: i64,
    pub value: i64,
    pub description: String,
    pub time: i64,
    pub user_id: i64,
    pub company_id: i64,
}

impl Keyed for ExpenseRow {
    open spec fn key(&self) -> i64 {
        self.id
    }

    fn id(&self) -> (r: i64) {
        self.id
    }
}

/// An expense as callers see it, with the names of its user and company.
#[derive(Debug)]
pub struct Expense {
    pub id: i64,
    pub value: i64,
    pub description: String,
    pub time: i64,
    pub company: String,
    pub user: String,
}

/// A request to record an expense.
#[derive(Debug)]
pub struct CreateExpense {
    pub value: i64,
    pub description: String,
}

/// A stored income: value that a company received, recorded by an admin.
#[derive(Debug)]
pub struct IncomeRow {
    pub id: i64,
    pub value: i64,
    pub description: String,
    pub time: i64,
    pub admin_id: i64,
    pub company_id: i64,
}

impl Keyed for IncomeRow {
    open spec fn key(&self) -> i64 {
        self.id
    }

    fn id(&self) -> (r: i64) {
        self.id
    }
}

/// An income as callers see it, with the names of its company and admin.
#[derive(Debug)]
pub struct Income {
    pub id: i64,
    pub value: i64,
    pub description: String,
    pub time: i64,
    pub company: String,
    pub admin: String,
}

/// A request to record an income.
#[derive(Debug)]
pub struct CreateIncome {
    pub value: i64,
    pub description: String,
}

/// A stored document: a file name under a company.
#[derive(Debug)]
pub struct DocumentRow {
    pub id: i64,
    pub name: String,
    pub time: i64,
    pub company_id: i64,
}

impl Clone for DocumentRow {
    fn clone(&self) -> (r: Self)
        ensures
            r == *self,
    {
        DocumentRow { id: self.id, name: self.name.clone(), time: self.time, company_id: self.company_id }
    }
}

impl Keyed for DocumentRow {
    open spec fn key(&self) -> i64 {
        self.id
    }

    fn id(&self) -> (r: i64) {
        self.id
    }
}

/// A document as callers see it, with the path its bytes are kept under.
#[derive(Debug)]
pub struct Document {
    pub id: i64,
    pub path: String,
    pub name: String,
    pub time: i64,
    pub company_id: i64,
}

impl Clone for Document {
    fn clone(&self) -> (r: Self)
        ensures
            r == *self,
    {
        Document {
            id: self.id,
            path: self.path.clone(),
            name: self.name.clone(),
            time: self.time,
            company_id: self.company_id,
        }
    }
}

} // verus!
