//! The storage engine: every table of the ledger, and the operations that read
//! and change them. Each operation is atomic: where it fails, nothing changed.

use vstd::prelude::*;
use crate::clock::now_millis;
use crate::error::Error;
use crate::file_system::{document_path, document_path_of};
use crate::models::{
    Company, CompanyInfo, CreateCompany, CreateExpense, CreateFunder, CreateIncome, Document,
    DocumentRow, Expense, ExpenseRow, Funder, FunderUpdate, Income, IncomeRow, LoginUser,
    RegisterUser, UpdateCompany, UpdatedCompany, UpdateUser, User,
};
use crate::table::{
    find, has_key, index_of, keys_below, keys_unique, lemma_has_key_push, lemma_has_key_remove,
    lemma_has_key_update, lemma_index_of, lemma_push_absent, lemma_push_fresh, lemma_remove_keys,
    lemma_update_same_key, Keyed,
};
use crate::text::{
    chars_of, contains_chars, is_substring, lower_of, push_signed_decimal, signed_decimal, to_lower,
};

verus! {

/// The contents of the store.
pub struct LedgerState {
    pub users: Seq<User>,
    pub companies: Seq<Company>,
    pub funders: Seq<Funder>,
    pub expenses: Seq<ExpenseRow>,
    pub incomes: Seq<IncomeRow>,
    pub documents: Seq<DocumentRow>,
    /// The id that the next record created will get.
    pub next_id: int,
}

impl LedgerState {
    /// Ids are unique in each table and below `next_id`; balances are not
    /// negative, ledger values are positive, and every funder and document
    /// belongs to a company that exists.
    pub open spec fn wf(self) -> bool {
        &&& 1 <= self.next_id <= i64::MAX
        &&& keys_unique(self.users) && keys_below(self.users, self.next_id)
        &&& keys_unique(self.companies) && keys_below(self.companies, self.next_id)
        &&& keys_unique(self.funders) && keys_below(self.funders, self.next_id)
        &&& keys_unique(self.expenses) && keys_below(self.expenses, self.next_id)
        &&& keys_unique(self.incomes) && keys_below(self.incomes, self.next_id)
        &&& keys_unique(self.documents) && keys_below(self.documents, self.next_id)
        &&& forall|i: int| 0 <= i < self.users.len() ==> #[trigger] self.users[i].value >= 0
        &&& forall|i: int| 0 <= i < self.expenses.len() ==> #[trigger] self.expenses[i].value > 0
        &&& forall|i: int| 0 <= i < self.incomes.len() ==> #[trigger] self.incomes[i].value > 0
        &&& forall|i: int| 0 <= i < self.funders.len() ==> has_key(self.companies, #[trigger] self.funders[i].company_id)
        &&& forall|i: int| 0 <= i < self.documents.len() ==> has_key(self.companies, #[trigger] self.documents[i].company_id)
    }

    /// The user with id `id`; meaningful where `has_key(self.users, id)`.
    pub open spec fn user(self, id: i64) -> User {
        self.users[index_of(self.users, id)]
    }

    /// The company with id `id`; meaningful where `has_key(self.companies, id)`.
    pub open spec fn company(self, id: i64) -> Company {
        self.companies[index_of(self.companies, id)]
    }
}

/// The name of user `id`, empty where there is no such user.
pub open spec fn user_name(st: LedgerState, id: i64) -> Seq<char> {
    if has_key(st.users, id) {
        st.user(id).name@
    } else {
        Seq::empty()
    }
}

/// The commercial name of company `id`, empty where there is no such company.
pub open spec fn company_name(st: LedgerState, id: i64) -> Seq<char> {
    if has_key(st.companies, id) {
        st.company(id).info.commercial_feature@
    } else {
        Seq::empty()
    }
}

/// Why an expense of `value` by user `uid` to company `cid` is refused, if it is.
pub open spec fn expense_refusal(st: LedgerState, uid: i64, cid: i64, value: i64) -> Option<Error> {
    if !has_key(st.users, uid) || !has_key(st.companies, cid) {
        Some(Error::ObjectNotFound)
    } else if value <= 0 {
        Some(Error::InvalidValue)
    } else if value > st.user(uid).value {
        Some(Error::NotEnoughUserValue(value, st.user(uid).value))
    } else {
        None
    }
}

/// The store after an expense of `value` by user `uid` to company `cid`: the
/// user's balance is debited by `value` and one row is added, under the next id.
pub open spec fn after_expense(
    st: LedgerState,
    uid: i64,
    cid: i64,
    value: i64,
    description: String,
    time: i64,
) -> LedgerState {
    let i = index_of(st.users, uid);
    LedgerState {
        users: st.users.update(i, User { value: (st.users[i].value - value) as i64, ..st.users[i] }),
        expenses: st.expenses.push(
            ExpenseRow {
                id: st.next_id as i64,
                value,
                description,
                time,
                user_id: uid,
                company_id: cid,
            },
        ),
        next_id: st.next_id + 1,
        ..st
    }
}

/// Crediting back expense `id` would take its user's balance past `i64::MAX`.
pub open spec fn credit_overflows(st: LedgerState, id: i64) -> bool {
    let e = st.expenses[index_of(st.expenses, id)];
    has_key(st.users, e.user_id) && st.user(e.user_id).value + e.value > i64::MAX
}

/// The store after expense `id` is deleted: the row is gone and its value is
/// credited back to its user, where that user still exists.
pub open spec fn after_expense_deleted(st: LedgerState, id: i64) -> LedgerState {
    let k = index_of(st.expenses, id);
    let e = st.expenses[k];
    if has_key(st.users, e.user_id) {
        let i = index_of(st.users, e.user_id);
        LedgerState {
            users: st.users.update(i, User { value: (st.users[i].value + e.value) as i64, ..st.users[i] }),
            expenses: st.expenses.remove(k),
            ..st
        }
    } else {
        LedgerState { expenses: st.expenses.remove(k), ..st }
    }
}

/// `v` shows row `e` with the names that `st` gives its user and company.
pub open spec fn shows_expense(st: LedgerState, v: Expense, e: ExpenseRow) -> bool {
    &&& v.id == e.id
    &&& v.value == e.value
    &&& v.description == e.description
    &&& v.time == e.time
    &&& v.user@ == user_name(st, e.user_id)
    &&& v.company@ == company_name(st, e.company_id)
}

/// A filter of at most one id: `None` lets every id through.
pub open spec fn passes(filter: Option<i64>, id: i64) -> bool {
    filter is None || filter == Some(id)
}

/// The expenses among the first `n` rows whose user and company pass the filters, in order.
pub open spec fn selected_expenses(s: Seq<ExpenseRow>, uf: Option<i64>, cf: Option<i64>, n: int) -> Seq<ExpenseRow>
    decreases n,
{
    if n <= 0 {
        Seq::empty()
    } else {
        let p = selected_expenses(s, uf, cf, n - 1);
        if passes(uf, s[n - 1].user_id) && passes(cf, s[n - 1].company_id) {
            p.push(s[n - 1])
        } else {
            p
        }
    }
}

/// The store after company creation: the company gets the next id, and the
/// funder asked for, if any, the one after it.
pub open spec fn after_company_created(st: LedgerState, c: CreateCompany) -> LedgerState {
    let company = Company { id: st.next_id as i64, info: c.info };
    match c.funder {
        None => LedgerState { companies: st.companies.push(company), next_id: st.next_id + 1, ..st },
        Some(f) => LedgerState {
            companies: st.companies.push(company),
            funders: st.funders.push(Funder { id: (st.next_id + 1) as i64, name: f.name, company_id: st.next_id as i64 }),
            next_id: st.next_id + 2,
            ..st
        },
    }
}

/// How many ids creating company `c` takes.
pub open spec fn ids_for_company(c: CreateCompany) -> int {
    if c.funder is Some {
        2
    } else {
        1
    }
}

/// Update `u` names a funder that exists in `fs`, and so renames it.
pub open spec fn renames(fs: Seq<Funder>, u: FunderUpdate) -> bool {
    &&& u.id is Some
    &&& has_key(fs, u.id.unwrap())
}

/// The funders, and the next id, after the first `n` funder updates of company
/// `cid`: each renames the funder it names, or adds a funder of `cid` under the
/// next id.
pub open spec fn funders_updated(fs: Seq<Funder>, ups: Seq<FunderUpdate>, cid: i64, next: int, n: int) -> (Seq<Funder>, int)
    decreases n,
{
    if n <= 0 {
        (fs, next)
    } else {
        let (f, x) = funders_updated(fs, ups, cid, next, n - 1);
        let u = ups[n - 1];
        if renames(f, u) {
            let k = index_of(f, u.id.unwrap());
            (f.update(k, Funder { name: u.name, ..f[k] }), x)
        } else {
            (f.push(Funder { id: x as i64, name: u.name, company_id: cid }), x + 1)
        }
    }
}

/// The funder row as update `i` leaves it: the funder it renamed, or the one it added.
pub open spec fn updated_row(fs: Seq<Funder>, ups: Seq<FunderUpdate>, cid: i64, next: int, i: int) -> Funder {
    let (f, x) = funders_updated(fs, ups, cid, next, i);
    let u = ups[i];
    if renames(f, u) {
        Funder { name: u.name, ..f[index_of(f, u.id.unwrap())] }
    } else {
        Funder { id: x as i64, name: u.name, company_id: cid }
    }
}

/// The next id never goes down as more funder updates are applied.
pub proof fn lemma_next_grows(fs: Seq<Funder>, ups: Seq<FunderUpdate>, cid: i64, next: int, m: int, n: int)
    requires
        0 <= m <= n,
    ensures
        funders_updated(fs, ups, cid, next, m).1 <= funders_updated(fs, ups, cid, next, n).1,
    decreases n - m,
{
    if m < n {
        lemma_next_grows(fs, ups, cid, next, m, n - 1);
    }
}

/// The store after company `id` takes attributes `info` and funder updates `ups`.
pub open spec fn after_company_updated(st: LedgerState, id: i64, info: CompanyInfo, ups: Seq<FunderUpdate>) -> LedgerState {
    let (fs, next) = funders_updated(st.funders, ups, id, st.next_id, ups.len() as int);
    LedgerState {
        companies: st.companies.update(index_of(st.companies, id), Company { id, info }),
        funders: fs,
        next_id: next,
        ..st
    }
}

/// The funders among the first `n` that belong to company `cid`, in order.
pub open spec fn funders_of(fs: Seq<Funder>, cid: i64, n: int) -> Seq<Funder>
    decreases n,
{
    if n <= 0 {
        Seq::empty()
    } else if fs[n - 1].company_id == cid {
        funders_of(fs, cid, n - 1).push(fs[n - 1])
    } else {
        funders_of(fs, cid, n - 1)
    }
}

/// The funders among the first `n` that do not belong to company `cid`, in order.
pub open spec fn funders_not_of(fs: Seq<Funder>, cid: i64, n: int) -> Seq<Funder>
    decreases n,
{
    if n <= 0 {
        Seq::empty()
    } else if fs[n - 1].company_id != cid {
        funders_not_of(fs, cid, n - 1).push(fs[n - 1])
    } else {
        funders_not_of(fs, cid, n - 1)
    }
}

/// The documents among the first `n` that do not belong to company `cid`, in order.
pub open spec fn documents_not_of(ds: Seq<DocumentRow>, cid: i64, n: int) -> Seq<DocumentRow>
    decreases n,
{
    if n <= 0 {
        Seq::empty()
    } else if ds[n - 1].company_id != cid {
        documents_not_of(ds, cid, n - 1).push(ds[n - 1])
    } else {
        documents_not_of(ds, cid, n - 1)
    }
}

/// The store after company `id` is deleted, with its funders and documents.
pub open spec fn after_company_deleted(st: LedgerState, id: i64) -> LedgerState {
    LedgerState {
        companies: st.companies.remove(index_of(st.companies, id)),
        funders: funders_not_of(st.funders, id, st.funders.len() as int),
        documents: documents_not_of(st.documents, id, st.documents.len() as int),
        ..st
    }
}

/// Dropping the funders of a company keeps the ids unique and below the bound.
proof fn lemma_funders_not_of(fs: Seq<Funder>, cid: i64, n: int, bound: int)
    requires
        keys_unique(fs),
        keys_below(fs, bound),
        0 <= n <= fs.len(),
    ensures
        keys_unique(funders_not_of(fs, cid, n)),
        keys_below(funders_not_of(fs, cid, n), bound),
        forall|j: int| 0 <= j < funders_not_of(fs, cid, n).len() ==> exists|m: int| 0 <= m < n && #[trigger] funders_not_of(fs, cid, n)[j] == fs[m],
        forall|j: int| 0 <= j < funders_not_of(fs, cid, n).len() ==> #[trigger] funders_not_of(fs, cid, n)[j].company_id != cid,
    decreases n,
{
    if n > 0 {
        lemma_funders_not_of(fs, cid, n - 1, bound);
        let p = funders_not_of(fs, cid, n - 1);
        let t = funders_not_of(fs, cid, n);
        if fs[n - 1].company_id != cid {
            assert forall|j: int| 0 <= j < t.len() implies exists|m: int| 0 <= m < n && #[trigger] t[j] == fs[m] by {
                if j < p.len() {
                    assert(t[j] == p[j]);
                } else {
                    assert(t[j] == fs[n - 1]);
                }
            }
            assert forall|a: int, b: int| 0 <= a < t.len() && 0 <= b < t.len() && #[trigger] t[a].key() == #[trigger] t[b].key() implies a == b by {
                if a < p.len() && b == p.len() {
                    let m = choose|m: int| 0 <= m < n - 1 && p[a] == fs[m];
                    assert(fs[m].key() == fs[n - 1].key());
                } else if b < p.len() && a == p.len() {
                    let m = choose|m: int| 0 <= m < n - 1 && p[b] == fs[m];
                    assert(fs[m].key() == fs[n - 1].key());
                } else if a < p.len() && b < p.len() {
                    assert(t[a] == p[a] && t[b] == p[b]);
                }
            }
            assert forall|a: int| 0 <= a < t.len() implies #[trigger] t[a].key() < bound by {
                if a < p.len() {
                    assert(t[a] == p[a]);
                }
            }
            assert forall|a: int| 0 <= a < t.len() implies #[trigger] t[a].company_id != cid by {
                if a < p.len() {
                    assert(t[a] == p[a]);
                }
            }
        }
    }
}

/// Dropping the documents of a company keeps the ids unique and below the bound.
proof fn lemma_documents_not_of(ds: Seq<DocumentRow>, cid: i64, n: int, bound: int)
    requires
        keys_unique(ds),
        keys_below(ds, bound),
        0 <= n <= ds.len(),
    ensures
        keys_unique(documents_not_of(ds, cid, n)),
        keys_below(documents_not_of(ds, cid, n), bound),
        forall|j: int| 0 <= j < documents_not_of(ds, cid, n).len() ==> exists|m: int| 0 <= m < n && #[trigger] documents_not_of(ds, cid, n)[j] == ds[m],
        forall|j: int| 0 <= j < documents_not_of(ds, cid, n).len() ==> #[trigger] documents_not_of(ds, cid, n)[j].company_id != cid,
    decreases n,
{
    if n > 0 {
        lemma_documents_not_of(ds, cid, n - 1, bound);
        let p = documents_not_of(ds, cid, n - 1);
        let t = documents_not_of(ds, cid, n);
        if ds[n - 1].company_id != cid {
            assert forall|j: int| 0 <= j < t.len() implies exists|m: int| 0 <= m < n && #[trigger] t[j] == ds[m] by {
                if j < p.len() {
                    assert(t[j] == p[j]);
                } else {
                    assert(t[j] == ds[n - 1]);
                }
            }
            assert forall|a: int, b: int| 0 <= a < t.len() && 0 <= b < t.len() && #[trigger] t[a].key() == #[trigger] t[b].key() implies a == b by {
                if a < p.len() && b == p.len() {
                    let m = choose|m: int| 0 <= m < n - 1 && p[a] == ds[m];
                    assert(ds[m].key() == ds[n - 1].key());
                } else if b < p.len() && a == p.len() {
                    let m = choose|m: int| 0 <= m < n - 1 && p[b] == ds[m];
                    assert(ds[m].key() == ds[n - 1].key());
                } else if a < p.len() && b < p.len() {
                    assert(t[a] == p[a] && t[b] == p[b]);
                }
            }
            assert forall|a: int| 0 <= a < t.len() implies #[trigger] t[a].key() < bound by {
                if a < p.len() {
                    assert(t[a] == p[a]);
                }
            }
            assert forall|a: int| 0 <= a < t.len() implies #[trigger] t[a].company_id != cid by {
                if a < p.len() {
                    assert(t[a] == p[a]);
                }
            }
        }
    }
}

/// Some funder of company `cid` has a name whose folded form holds `q`.
pub open spec fn funder_matches(q: Seq<char>, fs: Seq<Funder>, cid: i64) -> bool {
    exists|k: int| 0 <= k < fs.len() && #[trigger] fs[k].company_id == cid && is_substring(q, lower_of(fs[k].name@))
}

/// Company `c` matches the folded query `q`: by the folded decimal text of its id, by
/// its folded commercial name, or by the folded name of one of its funders.
pub open spec fn company_matches(st: LedgerState, q: Seq<char>, c: Company) -> bool {
    ||| is_substring(q, lower_of(signed_decimal(c.id as int)))
    ||| is_substring(q, lower_of(c.info.commercial_feature@))
    ||| funder_matches(q, st.funders, c.id)
}

/// The companies among the first `n` that match the folded query `q`, in order.
pub open spec fn matching_companies(st: LedgerState, q: Seq<char>, n: int) -> Seq<Company>
    decreases n,
{
    if n <= 0 {
        Seq::empty()
    } else if company_matches(st, q, st.companies[n - 1]) {
        matching_companies(st, q, n - 1).push(st.companies[n - 1])
    } else {
        matching_companies(st, q, n - 1)
    }
}

/// The outcome of a search for the folded query `q`: the matching companies,
/// or `ObjectNotFound` where there are none.
pub open spec fn search_outcome(st: LedgerState, q: Seq<char>, r: Result<Vec<Company>, Error>) -> bool {
    let m = matching_companies(st, q, st.companies.len() as int);
    &&& m.len() == 0 ==> r == Err::<Vec<Company>, Error>(Error::ObjectNotFound)
    &&& m.len() > 0 ==> (r matches Ok(v) && v@ == m)
}

/// The position of the last user among the first `n` with this name and password, or -1.
pub open spec fn login_index(users: Seq<User>, name: Seq<char>, password: Seq<char>, n: int) -> int
    decreases n,
{
    if n <= 0 {
        -1
    } else if users[n - 1].name@ == name && users[n - 1].password@ == password {
        n - 1
    } else {
        login_index(users, name, password, n - 1)
    }
}

/// Why an income of `value` recorded by admin `aid` for company `cid` is refused, if it is.
pub open spec fn income_refusal(st: LedgerState, aid: i64, cid: i64, value: i64) -> Option<Error> {
    if !has_key(st.users, aid) || !has_key(st.companies, cid) {
        Some(Error::ObjectNotFound)
    } else if value <= 0 {
        Some(Error::InvalidValue)
    } else {
        None
    }
}

/// The store after an income is recorded: one row is added, under the next id.
/// No balance changes: the admin is not debited.
pub open spec fn after_income(st: LedgerState, aid: i64, cid: i64, value: i64, description: String, time: i64) -> LedgerState {
    LedgerState {
        incomes: st.incomes.push(
            IncomeRow { id: st.next_id as i64, value, description, time, admin_id: aid, company_id: cid },
        ),
        next_id: st.next_id + 1,
        ..st
    }
}

/// `v` shows row `e` with the names that `st` gives its admin and company.
pub open spec fn shows_income(st: LedgerState, v: Income, e: IncomeRow) -> bool {
    &&& v.id == e.id
    &&& v.value == e.value
    &&& v.description == e.description
    &&& v.time == e.time
    &&& v.admin@ == user_name(st, e.admin_id)
    &&& v.company@ == company_name(st, e.company_id)
}

/// The incomes among the first `n` rows whose admin and company pass the filters, in order.
pub open spec fn selected_incomes(s: Seq<IncomeRow>, af: Option<i64>, cf: Option<i64>, n: int) -> Seq<IncomeRow>
    decreases n,
{
    if n <= 0 {
        Seq::empty()
    } else {
        let p = selected_incomes(s, af, cf, n - 1);
        if passes(af, s[n - 1].admin_id) && passes(cf, s[n - 1].company_id) {
            p.push(s[n - 1])
        } else {
            p
        }
    }
}

/// `v` shows document row `d`, with the path its bytes are kept under.
pub open spec fn shows_document(v: Document, d: DocumentRow) -> bool {
    &&& v.id == d.id
    &&& v.name == d.name
    &&& v.time == d.time
    &&& v.company_id == d.company_id
    &&& v.path@ == document_path(d.company_id, d.id, d.name@)
}

/// The documents among the first `n` that belong to company `cid`, in order.
pub open spec fn documents_of(ds: Seq<DocumentRow>, cid: i64, n: int) -> Seq<DocumentRow>
    decreases n,
{
    if n <= 0 {
        Seq::empty()
    } else if ds[n - 1].company_id == cid {
        documents_of(ds, cid, n - 1).push(ds[n - 1])
    } else {
        documents_of(ds, cid, n - 1)
    }
}

/// Copies a list of funders.
fn clone_funders(v: &Vec<Funder>) -> (r: Vec<Funder>)
    ensures
        r@ == v@,
{
    let mut r: Vec<Funder> = Vec::new();
    let mut i: usize = 0;
    while i < v.len()
        invariant
            i <= v@.len(),
            r@ == v@.subrange(0, i as int),
        decreases v@.len() - i,
    {
        r.push(v[i].clone());
        i = i + 1;
        assert(r@ =~= v@.subrange(0, i as int));
    }
    assert(r@ =~= v@);
    r
}

/// A deleted document can be put back: its company exists and its id is free
/// and was given out before.
pub open spec fn restorable(st: LedgerState, doc: Document) -> bool {
    &&& has_key(st.companies, doc.company_id)
    &&& !has_key(st.documents, doc.id)
    &&& doc.id < st.next_id
}

/// An in-memory ledger store.
pub struct LocalStorageAccountingApi {
    users: Vec<User>,
    companies: Vec<Company>,
    funders: Vec<Funder>,
    expenses: Vec<ExpenseRow>,
    incomes: Vec<IncomeRow>,
    documents: Vec<DocumentRow>,
    next_id: i64,
}

impl View for LocalStorageAccountingApi {
    type V = LedgerState;

    closed spec fn view(&self) -> LedgerState {
        LedgerState {
            users: self.users@,
            companies: self.companies@,
            funders: self.funders@,
            expenses: self.expenses@,
            incomes: self.incomes@,
            documents: self.documents@,
            next_id: self.next_id as int,
        }
    }
}

/// The text of the error for a store that has given out every id.
fn ids_exhausted() -> (r: Error)
    ensures
        r matches Error::Other(_),
{
    Error::Other(String::from_str("no identifier is left"))
}

impl LocalStorageAccountingApi {
    /// An empty store.
    pub fn new() -> (r: Self)
        ensures
            r@.wf(),
            r@.users.len() == 0,
            r@.companies.len() == 0,
            r@.funders.len() == 0,
            r@.expenses.len() == 0,
            r@.incomes.len() == 0,
            r@.documents.len() == 0,
            r@.next_id == 1,
    {
        LocalStorageAccountingApi {
            users: Vec::new(),
            companies: Vec::new(),
            funders: Vec::new(),
            expenses: Vec::new(),
            incomes: Vec::new(),
            documents: Vec::new(),
            next_id: 1,
        }
    }

    // ---- users ----

    /// Registers a user with a balance of zero under a fresh id.
    pub fn register_user(&mut self, u: &RegisterUser) -> (r: Result<User, Error>)
        requires
            old(self)@.wf(),
        ensures
            final(self)@.wf(),
            old(self)@.next_id < i64::MAX ==> {
                let user = User {
                    id: old(self)@.next_id as i64,
                    name: u.name,
                    password: u.password,
                    is_admin: u.is_admin,
                    value: 0,
                };
                &&& r == Ok::<User, Error>(user)
                &&& final(self)@ == (LedgerState {
                    users: old(self)@.users.push(user),
                    next_id: old(self)@.next_id + 1,
                    ..old(self)@
                })
            },
            old(self)@.next_id == i64::MAX ==> (r matches Err(Error::Other(_))) && final(self)@ == old(self)@,
    {
        if self.next_id == i64::MAX {
            return Err(ids_exhausted());
        }
        let user = User {
            id: self.next_id,
            name: u.name.clone(),
            password: u.password.clone(),
            is_admin: u.is_admin,
            value: 0,
        };
        proof {
            lemma_push_fresh(self.users@, user, self.next_id as int);
        }
        self.users.push(user.clone());
        self.next_id = self.next_id + 1;
        Ok(user)
    }

    /// Changes the name and password of user `id`.
    pub fn update_user(&mut self, id: i64, u: &UpdateUser) -> (r: Result<User, Error>)
        requires
            old(self)@.wf(),
        ensures
            final(self)@.wf(),
            !has_key(old(self)@.users, id) ==> r == Err::<User, Error>(Error::ObjectNotFound) && final(self)@ == old(self)@,
            has_key(old(self)@.users, id) ==> {
                let user = User { name: u.name, password: u.password, ..old(self)@.user(id) };
                &&& r == Ok::<User, Error>(user)
                &&& final(self)@ == (LedgerState {
                    users: old(self)@.users.update(index_of(old(self)@.users, id), user),
                    ..old(self)@
                })
            },
    {
        proof {
            lemma_index_of(self.users@, id);
        }
        match find(&self.users, id) {
            None => Err(Error::ObjectNotFound),
            Some(i) => {
                let user = User {
                    id: self.users[i].id,
                    name: u.name.clone(),
                    password: u.password.clone(),
                    is_admin: self.users[i].is_admin,
                    value: self.users[i].value,
                };
                proof {
                    lemma_update_same_key(self.users@, i as int, user, self.next_id as int);
                }
                self.users.set(i, user.clone());
                Ok(user)
            },
        }
    }

    /// Every user, in the order of registration.
    pub fn get_users(&self) -> (r: Vec<User>)
        ensures
            r@ == self@.users,
    {
        let mut r: Vec<User> = Vec::new();
        let mut i: usize = 0;
        while i < self.users.len()
            invariant
                i <= self.users@.len(),
                r@ == self.users@.subrange(0, i as int),
            decreases self.users@.len() - i,
        {
            r.push(self.users[i].clone());
            i = i + 1;
            assert(r@ =~= self.users@.subrange(0, i as int));
        }
        assert(r@ =~= self.users@);
        r
    }

    /// The user with id `id`.
    pub fn get_user(&self, id: i64) -> (r: Result<User, Error>)
        ensures
            !has_key(self@.users, id) ==> r == Err::<User, Error>(Error::ObjectNotFound),
            has_key(self@.users, id) ==> r == Ok::<User, Error>(self@.user(id)),
    {
        proof {
            lemma_index_of(self.users@, id);
        }
        match find(&self.users, id) {
            None => Err(Error::ObjectNotFound),
            Some(i) => Ok(self.users[i].clone()),
        }
    }

    /// Sets the balance of user `id` to `v`; a negative balance is refused.
    pub fn pay_user(&mut self, id: i64, v: i64) -> (r: Result<User, Error>)
        requires
            old(self)@.wf(),
        ensures
            final(self)@.wf(),
            v < 0 ==> r == Err::<User, Error>(Error::InvalidValue) && final(self)@ == old(self)@,
            v >= 0 && !has_key(old(self)@.users, id) ==> r == Err::<User, Error>(Error::ObjectNotFound) && final(self)@ == old(self)@,
            v >= 0 && has_key(old(self)@.users, id) ==> {
                let user = User { value: v, ..old(self)@.user(id) };
                &&& r == Ok::<User, Error>(user)
                &&& final(self)@ == (LedgerState {
                    users: old(self)@.users.update(index_of(old(self)@.users, id), user),
                    ..old(self)@
                })
            },
    {
        if v < 0 {
            return Err(Error::InvalidValue);
        }
        proof {
            lemma_index_of(self.users@, id);
        }
        match find(&self.users, id) {
            None => Err(Error::ObjectNotFound),
            Some(i) => {
                let user = User {
                    id: self.users[i].id,
                    name: self.users[i].name.clone(),
                    password: self.users[i].password.clone(),
                    is_admin: self.users[i].is_admin,
                    value: v,
                };
                proof {
                    lemma_update_same_key(self.users@, i as int, user, self.next_id as int);
                }
                self.users.set(i, user.clone());
                assert forall|k: int| 0 <= k < self.users@.len() implies #[trigger] self.users@[k].value >= 0 by {
                    if k != i {
                        assert(self.users@[k] == old(self).users@[k]);
                    }
                }
                Ok(user)
            },
        }
    }

    /// Removes user `id`.
    pub fn delete_user(&mut self, id: i64) -> (r: Result<(), Error>)
        requires
            old(self)@.wf(),
        ensures
            final(self)@.wf(),
            !has_key(old(self)@.users, id) ==> r == Err::<(), Error>(Error::ObjectNotFound) && final(self)@ == old(self)@,
            has_key(old(self)@.users, id) ==> r == Ok::<(), Error>(()) && final(self)@ == (LedgerState {
                users: old(self)@.users.remove(index_of(old(self)@.users, id)),
                ..old(self)@
            }),
    {
        proof {
            lemma_index_of(self.users@, id);
        }
        match find(&self.users, id) {
            None => Err(Error::ObjectNotFound),
            Some(i) => {
                proof {
                    lemma_remove_keys(self.users@, i as int, self.next_id as int);
                }
                self.users.remove(i);
                assert forall|k: int| 0 <= k < self.users@.len() implies #[trigger] self.users@[k].value >= 0 by {
                    let k2 = if k < i { k } else { k + 1 };
                    assert(self.users@[k] == old(self).users@[k2]);
                }
                Ok(())
            },
        }
    }

    // ---- expenses ----

    /// The name of user `id`, empty where there is none.
    fn name_of_user(&self, id: i64) -> (r: String)
        ensures
            r@ == user_name(self@, id),
    {
        proof {
            lemma_index_of(self.users@, id);
        }
        match find(&self.users, id) {
            None => String::new(),
            Some(i) => self.users[i].name.clone(),
        }
    }

    /// The commercial name of company `id`, empty where there is none.
    fn name_of_company(&self, id: i64) -> (r: String)
        ensures
            r@ == company_name(self@, id),
    {
        proof {
            lemma_index_of(self.companies@, id);
        }
        match find(&self.companies, id) {
            None => String::new(),
            Some(i) => self.companies[i].info.commercial_feature.clone(),
        }
    }

    /// Records an expense at time `time`: user `user_id` pays `expense.value` to
    /// company `company_id`. The check of the balance and the debit are one step.
    pub fn create_expense_at(&mut self, user_id: i64, company_id: i64, expense: &CreateExpense, time: i64) -> (r: Result<Expense, Error>)
        requires
            old(self)@.wf(),
        ensures
            final(self)@.wf(),
            expense_refusal(old(self)@, user_id, company_id, expense.value) is Some ==> r == Err::<Expense, Error>(
                expense_refusal(old(self)@, user_id, company_id, expense.value).unwrap(),
            ) && final(self)@ == old(self)@,
            expense_refusal(old(self)@, user_id, company_id, expense.value) is None && old(self)@.next_id == i64::MAX ==> (r matches Err(
                Error::Other(_),
            )) && final(self)@ == old(self)@,
            expense_refusal(old(self)@, user_id, company_id, expense.value) is None && old(self)@.next_id < i64::MAX ==> {
                &&& final(self)@ == after_expense(old(self)@, user_id, company_id, expense.value, expense.description, time)
                &&& r matches Ok(v) && shows_expense(final(self)@, v, final(self)@.expenses.last())
            },
    {
        proof {
            lemma_index_of(self.users@, user_id);
            lemma_index_of(self.companies@, company_id);
        }
        let ui = match find(&self.users, user_id) {
            None => {
                return Err(Error::ObjectNotFound);
            },
            Some(i) => i,
        };
        let ci = match find(&self.companies, company_id) {
            None => {
                return Err(Error::ObjectNotFound);
            },
            Some(i) => i,
        };
        if expense.value <= 0 {
            return Err(Error::InvalidValue);
        }
        let balance = self.users[ui].value;
        if expense.value > balance {
            return Err(Error::NotEnoughUserValue(expense.value, balance));
        }
        if self.next_id == i64::MAX {
            return Err(ids_exhausted());
        }
        let user = User {
            id: self.users[ui].id,
            name: self.users[ui].name.clone(),
            password: self.users[ui].password.clone(),
            is_admin: self.users[ui].is_admin,
            value: balance - expense.value,
        };
        let row = ExpenseRow {
            id: self.next_id,
            value: expense.value,
            description: expense.description.clone(),
            time,
            user_id,
            company_id,
        };
        let view = Expense {
            id: row.id,
            value: row.value,
            description: expense.description.clone(),
            time,
            company: self.companies[ci].info.commercial_feature.clone(),
            user: self.users[ui].name.clone(),
        };
        proof {
            lemma_update_same_key(self.users@, ui as int, user, self.next_id as int);
            lemma_push_fresh(self.expenses@, row, self.next_id as int);
            lemma_index_of(self.users@.update(ui as int, user), user_id);
        }
        self.users.set(ui, user);
        self.expenses.push(row);
        self.next_id = self.next_id + 1;
        proof {
            lemma_index_of(self.users@, user_id);
            lemma_index_of(self.companies@, company_id);
            assert(keys_below(self.users@, self.next_id as int));
            assert(keys_below(self.companies@, self.next_id as int));
            assert(keys_below(self.funders@, self.next_id as int));
            assert(keys_below(self.incomes@, self.next_id as int));
            assert(keys_below(self.documents@, self.next_id as int));
            assert forall|k: int| 0 <= k < self.users@.len() implies #[trigger] self.users@[k].value >= 0 by {
                if k != ui {
                    assert(self.users@[k] == old(self).users@[k]);
                }
            }
            assert forall|k: int| 0 <= k < self.expenses@.len() implies #[trigger] self.expenses@[k].value > 0 by {
                if k < old(self).expenses@.len() {
                    assert(self.expenses@[k] == old(self).expenses@[k]);
                }
            }
        }
        Ok(view)
    }

    /// Deletes expense `id` and credits its value back to its user, where that
    /// user still exists; where the user is gone, only the row is deleted.
    pub fn delete_expense(&mut self, id: i64) -> (r: Result<(), Error>)
        requires
            old(self)@.wf(),
        ensures
            final(self)@.wf(),
            !has_key(old(self)@.expenses, id) ==> r == Err::<(), Error>(Error::ObjectNotFound) && final(self)@ == old(self)@,
            has_key(old(self)@.expenses, id) && credit_overflows(old(self)@, id) ==> r == Err::<(), Error>(Error::InvalidValue)
                && final(self)@ == old(self)@,
            has_key(old(self)@.expenses, id) && !credit_overflows(old(self)@, id) ==> r == Ok::<(), Error>(())
                && final(self)@ == after_expense_deleted(old(self)@, id),
    {
        proof {
            lemma_index_of(self.expenses@, id);
        }
        let k = match find(&self.expenses, id) {
            None => {
                return Err(Error::ObjectNotFound);
            },
            Some(k) => k,
        };
        let uid = self.expenses[k].user_id;
        let value = self.expenses[k].value;
        proof {
            lemma_index_of(self.users@, uid);
            lemma_remove_keys(self.expenses@, k as int, self.next_id as int);
        }
        match find(&self.users, uid) {
            None => {
                self.expenses.remove(k);
            },
            Some(i) => {
                if self.users[i].value > i64::MAX - value {
                    return Err(Error::InvalidValue);
                }
                let user = User {
                    id: self.users[i].id,
                    name: self.users[i].name.clone(),
                    password: self.users[i].password.clone(),
                    is_admin: self.users[i].is_admin,
                    value: self.users[i].value + value,
                };
                proof {
                    lemma_update_same_key(self.users@, i as int, user, self.next_id as int);
                }
                self.users.set(i, user);
                self.expenses.remove(k);
                assert forall|j: int| 0 <= j < self.users@.len() implies #[trigger] self.users@[j].value >= 0 by {
                    if j != i {
                        assert(self.users@[j] == old(self).users@[j]);
                    }
                }
            },
        }
        assert forall|j: int| 0 <= j < self.expenses@.len() implies #[trigger] self.expenses@[j].value > 0 by {
            let j2 = if j < k { j } else { j + 1 };
            assert(self.expenses@[j] == old(self).expenses@[j2]);
        }
        Ok(())
    }

    /// The expenses whose user and company pass the filters, in the order they
    /// were recorded, each with the names of its user and company.
    pub fn get_expenses(&self, user_id: Option<i64>, company_id: Option<i64>) -> (r: Vec<Expense>)
        ensures
            r@.len() == selected_expenses(self@.expenses, user_id, company_id, self@.expenses.len() as int).len(),
            forall|k: int| 0 <= k < r@.len() ==> shows_expense(
                self@,
                #[trigger] r@[k],
                selected_expenses(self@.expenses, user_id, company_id, self@.expenses.len() as int)[k],
            ),
    {
        let mut r: Vec<Expense> = Vec::new();
        let mut i: usize = 0;
        while i < self.expenses.len()
            invariant
                i <= self.expenses@.len(),
                r@.len() == selected_expenses(self@.expenses, user_id, company_id, i as int).len(),
                forall|k: int| 0 <= k < r@.len() ==> shows_expense(
                    self@,
                    #[trigger] r@[k],
                    selected_expenses(self@.expenses, user_id, company_id, i as int)[k],
                ),
            decreases self.expenses@.len() - i,
        {
            let e = &self.expenses[i];
            let keep_user = match user_id {
                None => true,
                Some(u) => u == e.user_id,
            };
            let keep_company = match company_id {
                None => true,
                Some(c) => c == e.company_id,
            };
            if keep_user && keep_company {
                let v = Expense {
                    id: e.id,
                    value: e.value,
                    description: e.description.clone(),
                    time: e.time,
                    company: self.name_of_company(e.company_id),
                    user: self.name_of_user(e.user_id),
                };
                r.push(v);
            }
            i = i + 1;
            proof {
                let prev = selected_expenses(self@.expenses, user_id, company_id, i - 1);
                let cur = selected_expenses(self@.expenses, user_id, company_id, i as int);
                assert forall|k: int| 0 <= k < r@.len() implies shows_expense(self@, #[trigger] r@[k], cur[k]) by {
                    if k < prev.len() {
                        assert(cur[k] == prev[k]);
                    }
                }
            }
        }
        r
    }

    // ---- companies ----

    /// Creates a company, and its first funder where one is asked for, in one step.
    pub fn create_company(&mut self, c: &CreateCompany) -> (r: Result<Company, Error>)
        requires
            old(self)@.wf(),
        ensures
            final(self)@.wf(),
            old(self)@.next_id + ids_for_company(*c) > i64::MAX ==> (r matches Err(Error::Other(_))) && final(self)@ == old(self)@,
            old(self)@.next_id + ids_for_company(*c) <= i64::MAX ==> r == Ok::<Company, Error>(
                Company { id: old(self)@.next_id as i64, info: c.info },
            ) && final(self)@ == after_company_created(old(self)@, *c),
    {
        let needed: i64 = if c.funder.is_some() { 2 } else { 1 };
        if self.next_id > i64::MAX - needed {
            return Err(ids_exhausted());
        }
        let company = Company { id: self.next_id, info: c.info.clone() };
        proof {
            lemma_push_fresh(self.companies@, company, self.next_id as int);
        }
        self.companies.push(company.clone());
        self.next_id = self.next_id + 1;
        match &c.funder {
            None => {},
            Some(f) => {
                let funder = Funder { id: self.next_id, name: f.name.clone(), company_id: company.id };
                proof {
                    lemma_push_fresh(self.funders@, funder, self.next_id as int);
                }
                self.funders.push(funder);
                self.next_id = self.next_id + 1;
            },
        }
        proof {
            lemma_has_key_push(old(self).companies@, company);
            assert(keys_below(self.users@, self.next_id as int));
            assert(keys_below(self.companies@, self.next_id as int));
            assert(keys_below(self.funders@, self.next_id as int));
            assert(keys_below(self.expenses@, self.next_id as int));
            assert(keys_below(self.incomes@, self.next_id as int));
            assert(keys_below(self.documents@, self.next_id as int));
            assert forall|k: int| 0 <= k < self.funders@.len() implies has_key(self.companies@, #[trigger] self.funders@[k].company_id) by {
                if k < old(self).funders@.len() {
                    assert(self.funders@[k] == old(self).funders@[k]);
                }
            }
            assert forall|k: int| 0 <= k < self.documents@.len() implies has_key(self.companies@, #[trigger] self.documents@[k].company_id) by {
                assert(self.documents@[k] == old(self).documents@[k]);
            }
        }
        Ok(company)
    }

    /// Replaces the attributes of company `id` and applies the funder updates in
    /// order, all in one step. An update with the id of an existing funder
    /// renames it; any other adds a funder to this company. The answer holds, for
    /// each update, the funder row as that update left it. Expenses are not
    /// touched: a recorded expense is never edited, only deleted.
    pub fn update_company(&mut self, id: i64, c: &UpdateCompany) -> (r: Result<UpdatedCompany, Error>)
        requires
            old(self)@.wf(),
        ensures
            final(self)@.wf(),
            !has_key(old(self)@.companies, id) ==> (r matches Err(Error::ObjectNotFound)) && final(self)@ == old(self)@,
            has_key(old(self)@.companies, id) && funders_updated(
                old(self)@.funders,
                c.funders@,
                id,
                old(self)@.next_id,
                c.funders@.len() as int,
            ).1 > i64::MAX ==> (r matches Err(Error::Other(_))) && final(self)@ == old(self)@,
            has_key(old(self)@.companies, id) && funders_updated(
                old(self)@.funders,
                c.funders@,
                id,
                old(self)@.next_id,
                c.funders@.len() as int,
            ).1 <= i64::MAX ==> {
                &&& final(self)@ == after_company_updated(old(self)@, id, c.info, c.funders@)
                &&& r matches Ok(x) && {
                    &&& x.company == (Company { id, info: c.info })
                    &&& x.funders@.len() == c.funders@.len()
                    &&& forall|i: int| 0 <= i < c.funders@.len() ==> #[trigger] x.funders@[i] == updated_row(
                        old(self)@.funders,
                        c.funders@,
                        id,
                        old(self)@.next_id,
                        i,
                    )
                }
            },
    {
        proof {
            lemma_index_of(self.companies@, id);
        }
        let ci = match find(&self.companies, id) {
            None => {
                return Err(Error::ObjectNotFound);
            },
            Some(i) => i,
        };
        let ghost st = self@;
        let ghost ups = c.funders@;
        let mut fs = clone_funders(&self.funders);
        let mut next = self.next_id;
        let mut rows: Vec<Funder> = Vec::new();
        let mut i: usize = 0;
        while i < c.funders.len()
            invariant
                st == old(self)@,
                self@ == st,
                st.wf(),
                has_key(st.companies, id),
                ups == c.funders@,
                i <= ups.len(),
                (fs@, next as int) == funders_updated(st.funders, ups, id, st.next_id, i as int),
                st.next_id <= next,
                keys_unique(fs@),
                keys_below(fs@, next as int),
                forall|k: int| 0 <= k < fs@.len() ==> has_key(st.companies, #[trigger] fs@[k].company_id),
                rows@.len() == i,
                forall|k: int| 0 <= k < i ==> #[trigger] rows@[k] == updated_row(st.funders, ups, id, st.next_id, k),
            decreases ups.len() - i,
        {
            let u = &c.funders[i];
            let ghost before = fs@;
            let mut target: Option<usize> = None;
            match u.id {
                None => {},
                Some(fid) => {
                    proof {
                        lemma_index_of(fs@, fid);
                    }
                    target = find(&fs, fid);
                },
            }
            proof {
                if u.id is Some {
                    lemma_index_of(fs@, u.id.unwrap());
                }
            }
            match target {
                Some(k) => {
                    let f = Funder { id: fs[k].id, name: u.name.clone(), company_id: fs[k].company_id };
                    proof {
                        lemma_update_same_key(fs@, k as int, f, next as int);
                    }
                    fs.set(k, f.clone());
                    rows.push(f);
                    assert forall|j: int| 0 <= j < fs@.len() implies has_key(st.companies, #[trigger] fs@[j].company_id) by {
                        if j != k {
                            assert(fs@[j] == before[j]);
                        }
                    }
                },
                None => {
                    if next == i64::MAX {
                        proof {
                            lemma_next_grows(st.funders, ups, id, st.next_id, i + 1, ups.len() as int);
                        }
                        return Err(ids_exhausted());
                    }
                    let f = Funder { id: next, name: u.name.clone(), company_id: id };
                    proof {
                        lemma_push_fresh(fs@, f, next as int);
                    }
                    fs.push(f.clone());
                    rows.push(f);
                    next = next + 1;
                    assert forall|j: int| 0 <= j < fs@.len() implies has_key(st.companies, #[trigger] fs@[j].company_id) by {
                        if j < before.len() {
                            assert(fs@[j] == before[j]);
                        }
                    }
                },
            }
            i = i + 1;
        }
        let company = Company { id, info: c.info.clone() };
        proof {
            lemma_update_same_key(self.companies@, ci as int, company, self.next_id as int);
            lemma_has_key_update(self.companies@, ci as int, company);
        }
        self.companies.set(ci, company.clone());
        self.funders = fs;
        self.next_id = next;
        proof {
            assert forall|k: int| 0 <= k < self.users@.len() implies #[trigger] self.users@[k].key() < self.next_id by {
                assert(st.users[k].key() < st.next_id);
            }
            assert forall|k: int| 0 <= k < self.companies@.len() implies #[trigger] self.companies@[k].key() < self.next_id by {
                assert(self.companies@[k].key() == st.companies[k].key());
                assert(st.companies[k].key() < st.next_id);
            }
            assert forall|k: int| 0 <= k < self.expenses@.len() implies #[trigger] self.expenses@[k].key() < self.next_id by {
                assert(st.expenses[k].key() < st.next_id);
            }
            assert forall|k: int| 0 <= k < self.incomes@.len() implies #[trigger] self.incomes@[k].key() < self.next_id by {
                assert(st.incomes[k].key() < st.next_id);
            }
            assert forall|k: int| 0 <= k < self.documents@.len() implies #[trigger] self.documents@[k].key() < self.next_id by {
                assert(st.documents[k].key() < st.next_id);
            }
            assert forall|k: int| 0 <= k < self.documents@.len() implies has_key(self.companies@, #[trigger] self.documents@[k].company_id) by {
                assert(has_key(st.companies, st.documents[k].company_id));
            }
            assert forall|k: int| 0 <= k < self.funders@.len() implies has_key(self.companies@, #[trigger] self.funders@[k].company_id) by {
                assert(has_key(st.companies, self.funders@[k].company_id));
            }
        }
        Ok(UpdatedCompany { company, funders: rows })
    }

    /// Whether some funder of company `cid` has a name whose folded form holds `q`.
    fn any_funder_matches(&self, q: &Vec<char>, cid: i64) -> (r: bool)
        ensures
            r == funder_matches(q@, self@.funders, cid),
    {
        let mut k: usize = 0;
        while k < self.funders.len()
            invariant
                k <= self.funders@.len(),
                forall|j: int| 0 <= j < k ==> !(#[trigger] self.funders@[j].company_id == cid && is_substring(q@, lower_of(self.funders@[j].name@))),
            decreases self.funders@.len() - k,
        {
            if self.funders[k].company_id == cid {
                let folded = to_lower(self.funders[k].name.as_str());
                let chars = chars_of(folded.as_str());
                if contains_chars(&chars, q) {
                    return true;
                }
            }
            k = k + 1;
        }
        false
    }

    /// Whether company `c` matches the folded query `q`.
    fn company_matches_query(&self, q: &Vec<char>, c: &Company) -> (r: bool)
        ensures
            r == company_matches(self@, q@, *c),
    {
        let mut id_text = String::new();
        push_signed_decimal(&mut id_text, c.id);
        let id_folded = to_lower(id_text.as_str());
        let id_chars = chars_of(id_folded.as_str());
        if contains_chars(&id_chars, q) {
            return true;
        }
        let folded = to_lower(c.info.commercial_feature.as_str());
        let name_chars = chars_of(folded.as_str());
        if contains_chars(&name_chars, q) {
            return true;
        }
        self.any_funder_matches(q, c.id)
    }

    /// Searches with a query already folded to lower case: the companies whose
    /// folded id text, folded commercial name or folded funder name holds `q`, once
    /// each and in order of creation, or `ObjectNotFound` where none does.
    pub fn search_company_folded(&self, q: &str) -> (r: Result<Vec<Company>, Error>)
        ensures
            search_outcome(self@, q@, r),
    {
        let qc = chars_of(q);
        let mut out: Vec<Company> = Vec::new();
        let mut i: usize = 0;
        while i < self.companies.len()
            invariant
                qc@ == q@,
                i <= self.companies@.len(),
                out@ == matching_companies(self@, q@, i as int),
            decreases self.companies@.len() - i,
        {
            if self.company_matches_query(&qc, &self.companies[i]) {
                out.push(self.companies[i].clone());
            }
            i = i + 1;
        }
        if out.len() == 0 {
            Err(Error::ObjectNotFound)
        } else {
            Ok(out)
        }
    }

    /// Searches companies without regard to case: the query and the names are
    /// folded to lower case before they are compared.
    pub fn search_company(&self, s: &str) -> (r: Result<Vec<Company>, Error>)
        ensures
            search_outcome(self@, lower_of(s@), r),
    {
        let q = to_lower(s);
        self.search_company_folded(q.as_str())
    }

    /// Removes company `id`, with its funders and documents.
    pub fn delete_company(&mut self, id: i64) -> (r: Result<(), Error>)
        requires
            old(self)@.wf(),
        ensures
            final(self)@.wf(),
            !has_key(old(self)@.companies, id) ==> r == Err::<(), Error>(Error::ObjectNotFound) && final(self)@ == old(self)@,
            has_key(old(self)@.companies, id) ==> r == Ok::<(), Error>(()) && final(self)@ == after_company_deleted(old(self)@, id),
    {
        proof {
            lemma_index_of(self.companies@, id);
        }
        let ci = match find(&self.companies, id) {
            None => {
                return Err(Error::ObjectNotFound);
            },
            Some(i) => i,
        };
        proof {
            lemma_remove_keys(self.companies@, ci as int, self.next_id as int);
        }
        self.companies.remove(ci);
        let mut old_funders: Vec<Funder> = Vec::new();
        std::mem::swap(&mut old_funders, &mut self.funders);
        let mut k: usize = 0;
        while k < old_funders.len()
            invariant
                k <= old_funders@.len(),
                self.funders@ == funders_not_of(old_funders@, id, k as int),
                old_funders@ == old(self).funders@,
                self.users == old(self).users,
                self.expenses == old(self).expenses,
                self.incomes == old(self).incomes,
                self.documents == old(self).documents,
                self.next_id == old(self).next_id,
                self.companies@ == old(self).companies@.remove(ci as int),
            decreases old_funders@.len() - k,
        {
            if old_funders[k].company_id != id {
                self.funders.push(old_funders[k].clone());
            }
            k = k + 1;
        }
        let mut old_documents: Vec<DocumentRow> = Vec::new();
        std::mem::swap(&mut old_documents, &mut self.documents);
        let mut k: usize = 0;
        while k < old_documents.len()
            invariant
                k <= old_documents@.len(),
                self.documents@ == documents_not_of(old_documents@, id, k as int),
                old_documents@ == old(self).documents@,
                self.funders@ == funders_not_of(old_funders@, id, old_funders@.len() as int),
                old_funders@ == old(self).funders@,
                self.users == old(self).users,
                self.expenses == old(self).expenses,
                self.incomes == old(self).incomes,
                self.next_id == old(self).next_id,
                self.companies@ == old(self).companies@.remove(ci as int),
            decreases old_documents@.len() - k,
        {
            if old_documents[k].company_id != id {
                self.documents.push(old_documents[k].clone());
            }
            k = k + 1;
        }
        proof {
            let st = old(self)@;
            lemma_funders_not_of(old_funders@, id, old_funders@.len() as int, self.next_id as int);
            lemma_documents_not_of(old_documents@, id, old_documents@.len() as int, self.next_id as int);
            lemma_has_key_remove(st.companies, ci as int);
            assert forall|j: int| 0 <= j < self.funders@.len() implies has_key(self.companies@, #[trigger] self.funders@[j].company_id) by {
                let m = choose|m: int| 0 <= m < old_funders@.len() && #[trigger] self.funders@[j] == old_funders@[m];
                assert(has_key(st.companies, st.funders[m].company_id));
            }
            assert forall|j: int| 0 <= j < self.documents@.len() implies has_key(self.companies@, #[trigger] self.documents@[j].company_id) by {
                let m = choose|m: int| 0 <= m < old_documents@.len() && #[trigger] self.documents@[j] == old_documents@[m];
                assert(has_key(st.companies, st.documents[m].company_id));
            }
        }
        Ok(())
    }

    /// Records an expense at the current time; see `create_expense_at`.
    pub fn create_expense(&mut self, user_id: i64, company_id: i64, expense: &CreateExpense) -> (r: Result<Expense, Error>)
        requires
            old(self)@.wf(),
        ensures
            final(self)@.wf(),
            expense_refusal(old(self)@, user_id, company_id, expense.value) is Some ==> r == Err::<Expense, Error>(
                expense_refusal(old(self)@, user_id, company_id, expense.value).unwrap(),
            ) && final(self)@ == old(self)@,
            expense_refusal(old(self)@, user_id, company_id, expense.value) is None && old(self)@.next_id == i64::MAX ==> (r matches Err(
                Error::Other(_),
            )) && final(self)@ == old(self)@,
            expense_refusal(old(self)@, user_id, company_id, expense.value) is None && old(self)@.next_id < i64::MAX ==> {
                &&& final(self)@ == after_expense(
                    old(self)@,
                    user_id,
                    company_id,
                    expense.value,
                    expense.description,
                    final(self)@.expenses.last().time,
                )
                &&& r matches Ok(v) && shows_expense(final(self)@, v, final(self)@.expenses.last())
            },
    {
        let time = now_millis();
        self.create_expense_at(user_id, company_id, expense, time)
    }

    // ---- funders ----

    /// Adds a funder to company `company_id`.
    pub fn create_funder(&mut self, company_id: i64, f: &CreateFunder) -> (r: Result<Funder, Error>)
        requires
            old(self)@.wf(),
        ensures
            final(self)@.wf(),
            !has_key(old(self)@.companies, company_id) ==> r == Err::<Funder, Error>(Error::ObjectNotFound) && final(self)@ == old(self)@,
            has_key(old(self)@.companies, company_id) && old(self)@.next_id == i64::MAX ==> (r matches Err(Error::Other(_)))
                && final(self)@ == old(self)@,
            has_key(old(self)@.companies, company_id) && old(self)@.next_id < i64::MAX ==> {
                let funder = Funder { id: old(self)@.next_id as i64, name: f.name, company_id };
                &&& r == Ok::<Funder, Error>(funder)
                &&& final(self)@ == (LedgerState {
                    funders: old(self)@.funders.push(funder),
                    next_id: old(self)@.next_id + 1,
                    ..old(self)@
                })
            },
    {
        proof {
            lemma_index_of(self.companies@, company_id);
        }
        if find(&self.companies, company_id).is_none() {
            return Err(Error::ObjectNotFound);
        }
        if self.next_id == i64::MAX {
            return Err(ids_exhausted());
        }
        let funder = Funder { id: self.next_id, name: f.name.clone(), company_id };
        proof {
            lemma_push_fresh(self.funders@, funder, self.next_id as int);
        }
        self.funders.push(funder.clone());
        self.next_id = self.next_id + 1;
        proof {
            assert(keys_below(self.users@, self.next_id as int));
            assert(keys_below(self.companies@, self.next_id as int));
            assert(keys_below(self.expenses@, self.next_id as int));
            assert(keys_below(self.incomes@, self.next_id as int));
            assert(keys_below(self.documents@, self.next_id as int));
        }
        Ok(funder)
    }

    /// The funders of company `company_id`, in order of creation.
    pub fn get_funders(&self, company_id: i64) -> (r: Vec<Funder>)
        ensures
            r@ == funders_of(self@.funders, company_id, self@.funders.len() as int),
    {
        let mut r: Vec<Funder> = Vec::new();
        let mut k: usize = 0;
        while k < self.funders.len()
            invariant
                k <= self.funders@.len(),
                r@ == funders_of(self@.funders, company_id, k as int),
            decreases self.funders@.len() - k,
        {
            if self.funders[k].company_id == company_id {
                r.push(self.funders[k].clone());
            }
            k = k + 1;
        }
        r
    }

    /// Removes funder `id`.
    pub fn delete_funder(&mut self, id: i64) -> (r: Result<(), Error>)
        requires
            old(self)@.wf(),
        ensures
            final(self)@.wf(),
            !has_key(old(self)@.funders, id) ==> r == Err::<(), Error>(Error::ObjectNotFound) && final(self)@ == old(self)@,
            has_key(old(self)@.funders, id) ==> r == Ok::<(), Error>(()) && final(self)@ == (LedgerState {
                funders: old(self)@.funders.remove(index_of(old(self)@.funders, id)),
                ..old(self)@
            }),
    {
        proof {
            lemma_index_of(self.funders@, id);
        }
        match find(&self.funders, id) {
            None => Err(Error::ObjectNotFound),
            Some(k) => {
                proof {
                    lemma_remove_keys(self.funders@, k as int, self.next_id as int);
                }
                self.funders.remove(k);
                Ok(())
            },
        }
    }

    // ---- login ----

    /// The user with exactly this name and password.
    pub fn login_user(&self, u: &LoginUser) -> (r: Result<User, Error>)
        ensures
            login_index(self@.users, u.name@, u.password@, self@.users.len() as int) == -1 ==> r == Err::<User, Error>(
                Error::ObjectNotFound,
            ),
            login_index(self@.users, u.name@, u.password@, self@.users.len() as int) >= 0 ==> r == Ok::<User, Error>(
                self@.users[login_index(self@.users, u.name@, u.password@, self@.users.len() as int)],
            ),
    {
        let mut n = self.users.len();
        while n > 0
            invariant
                n <= self.users@.len(),
                login_index(self@.users, u.name@, u.password@, self@.users.len() as int) == login_index(
                    self@.users,
                    u.name@,
                    u.password@,
                    n as int,
                ),
            decreases n,
        {
            if self.users[n - 1].name == u.name && self.users[n - 1].password == u.password {
                return Ok(self.users[n - 1].clone());
            }
            n = n - 1;
        }
        Err(Error::ObjectNotFound)
    }

    // ---- incomes ----

    /// Records an income at time `time`: admin `admin_id` credits company
    /// `company_id` with `income.value`. No balance changes.
    pub fn create_income_at(&mut self, admin_id: i64, company_id: i64, income: &CreateIncome, time: i64) -> (r: Result<Income, Error>)
        requires
            old(self)@.wf(),
        ensures
            final(self)@.wf(),
            income_refusal(old(self)@, admin_id, company_id, income.value) is Some ==> r == Err::<Income, Error>(
                income_refusal(old(self)@, admin_id, company_id, income.value).unwrap(),
            ) && final(self)@ == old(self)@,
            income_refusal(old(self)@, admin_id, company_id, income.value) is None && old(self)@.next_id == i64::MAX ==> (r matches Err(
                Error::Other(_),
            )) && final(self)@ == old(self)@,
            income_refusal(old(self)@, admin_id, company_id, income.value) is None && old(self)@.next_id < i64::MAX ==> {
                &&& final(self)@ == after_income(old(self)@, admin_id, company_id, income.value, income.description, time)
                &&& r matches Ok(v) && shows_income(final(self)@, v, final(self)@.incomes.last())
            },
    {
        proof {
            lemma_index_of(self.users@, admin_id);
            lemma_index_of(self.companies@, company_id);
        }
        let ai = match find(&self.users, admin_id) {
            None => {
                return Err(Error::ObjectNotFound);
            },
            Some(i) => i,
        };
        let ci = match find(&self.companies, company_id) {
            None => {
                return Err(Error::ObjectNotFound);
            },
            Some(i) => i,
        };
        if income.value <= 0 {
            return Err(Error::InvalidValue);
        }
        if self.next_id == i64::MAX {
            return Err(ids_exhausted());
        }
        let row = IncomeRow {
            id: self.next_id,
            value: income.value,
            description: income.description.clone(),
            time,
            admin_id,
            company_id,
        };
        let view = Income {
            id: row.id,
            value: row.value,
            description: income.description.clone(),
            time,
            company: self.companies[ci].info.commercial_feature.clone(),
            admin: self.users[ai].name.clone(),
        };
        proof {
            lemma_push_fresh(self.incomes@, row, self.next_id as int);
        }
        self.incomes.push(row);
        self.next_id = self.next_id + 1;
        proof {
            assert(keys_below(self.users@, self.next_id as int));
            assert(keys_below(self.companies@, self.next_id as int));
            assert(keys_below(self.funders@, self.next_id as int));
            assert(keys_below(self.expenses@, self.next_id as int));
            assert(keys_below(self.documents@, self.next_id as int));
            assert forall|k: int| 0 <= k < self.incomes@.len() implies #[trigger] self.incomes@[k].value > 0 by {
                if k < old(self).incomes@.len() {
                    assert(self.incomes@[k] == old(self).incomes@[k]);
                }
            }
        }
        Ok(view)
    }

    /// Records an income at the current time; see `create_income_at`.
    pub fn create_income(&mut self, admin_id: i64, company_id: i64, income: &CreateIncome) -> (r: Result<Income, Error>)
        requires
            old(self)@.wf(),
        ensures
            final(self)@.wf(),
            income_refusal(old(self)@, admin_id, company_id, income.value) is Some ==> r == Err::<Income, Error>(
                income_refusal(old(self)@, admin_id, company_id, income.value).unwrap(),
            ) && final(self)@ == old(self)@,
            income_refusal(old(self)@, admin_id, company_id, income.value) is None && old(self)@.next_id == i64::MAX ==> (r matches Err(
                Error::Other(_),
            )) && final(self)@ == old(self)@,
            income_refusal(old(self)@, admin_id, company_id, income.value) is None && old(self)@.next_id < i64::MAX ==> {
                &&& final(self)@ == after_income(
                    old(self)@,
                    admin_id,
                    company_id,
                    income.value,
                    income.description,
                    final(self)@.incomes.last().time,
                )
                &&& r matches Ok(v) && shows_income(final(self)@, v, final(self)@.incomes.last())
            },
    {
        let time = now_millis();
        self.create_income_at(admin_id, company_id, income, time)
    }

    /// Deletes income `id`. No balance changes.
    pub fn delete_income(&mut self, id: i64) -> (r: Result<(), Error>)
        requires
            old(self)@.wf(),
        ensures
            final(self)@.wf(),
            !has_key(old(self)@.incomes, id) ==> r == Err::<(), Error>(Error::ObjectNotFound) && final(self)@ == old(self)@,
            has_key(old(self)@.incomes, id) ==> r == Ok::<(), Error>(()) && final(self)@ == (LedgerState {
                incomes: old(self)@.incomes.remove(index_of(old(self)@.incomes, id)),
                ..old(self)@
            }),
    {
        proof {
            lemma_index_of(self.incomes@, id);
        }
        match find(&self.incomes, id) {
            None => Err(Error::ObjectNotFound),
            Some(k) => {
                proof {
                    lemma_remove_keys(self.incomes@, k as int, self.next_id as int);
                }
                self.incomes.remove(k);
                assert forall|j: int| 0 <= j < self.incomes@.len() implies #[trigger] self.incomes@[j].value > 0 by {
                    let j2 = if j < k { j } else { j + 1 };
                    assert(self.incomes@[j] == old(self).incomes@[j2]);
                }
                Ok(())
            },
        }
    }

    /// The incomes whose admin and company pass the filters, in the order they
    /// were recorded, each with the names of its admin and company.
    pub fn get_incomes(&self, admin_id: Option<i64>, company_id: Option<i64>) -> (r: Vec<Income>)
        ensures
            r@.len() == selected_incomes(self@.incomes, admin_id, company_id, self@.incomes.len() as int).len(),
            forall|k: int| 0 <= k < r@.len() ==> shows_income(
                self@,
                #[trigger] r@[k],
                selected_incomes(self@.incomes, admin_id, company_id, self@.incomes.len() as int)[k],
            ),
    {
        let mut r: Vec<Income> = Vec::new();
        let mut i: usize = 0;
        while i < self.incomes.len()
            invariant
                i <= self.incomes@.len(),
                r@.len() == selected_incomes(self@.incomes, admin_id, company_id, i as int).len(),
                forall|k: int| 0 <= k < r@.len() ==> shows_income(
                    self@,
                    #[trigger] r@[k],
                    selected_incomes(self@.incomes, admin_id, company_id, i as int)[k],
                ),
            decreases self.incomes@.len() - i,
        {
            let e = &self.incomes[i];
            let keep_admin = match admin_id {
                None => true,
                Some(a) => a == e.admin_id,
            };
            let keep_company = match company_id {
                None => true,
                Some(c) => c == e.company_id,
            };
            if keep_admin && keep_company {
                let v = Income {
                    id: e.id,
                    value: e.value,
                    description: e.description.clone(),
                    time: e.time,
                    company: self.name_of_company(e.company_id),
                    admin: self.name_of_user(e.admin_id),
                };
                r.push(v);
            }
            i = i + 1;
            proof {
                let prev = selected_incomes(self@.incomes, admin_id, company_id, i - 1);
                let cur = selected_incomes(self@.incomes, admin_id, company_id, i as int);
                assert forall|k: int| 0 <= k < r@.len() implies shows_income(self@, #[trigger] r@[k], cur[k]) by {
                    if k < prev.len() {
                        assert(cur[k] == prev[k]);
                    }
                }
            }
        }
        r
    }

    // ---- documents ----

    /// The view of a stored document.
    fn document_view(d: &DocumentRow) -> (r: Document)
        ensures
            shows_document(r, *d),
    {
        Document {
            id: d.id,
            path: document_path_of(d.company_id, d.id, d.name.as_str()),
            name: d.name.clone(),
            time: d.time,
            company_id: d.company_id,
        }
    }

    /// Records a document named `name` under company `company_id` at time `time`.
    /// Its bytes belong at the returned path; see `settle_upload`.
    pub fn create_document_at(&mut self, company_id: i64, name: &str, time: i64) -> (r: Result<Document, Error>)
        requires
            old(self)@.wf(),
        ensures
            final(self)@.wf(),
            !has_key(old(self)@.companies, company_id) ==> r == Err::<Document, Error>(Error::ObjectNotFound) && final(self)@ == old(self)@,
            has_key(old(self)@.companies, company_id) && old(self)@.next_id == i64::MAX ==> (r matches Err(Error::Other(_)))
                && final(self)@ == old(self)@,
            has_key(old(self)@.companies, company_id) && old(self)@.next_id < i64::MAX ==> {
                &&& final(self)@.documents.len() == old(self)@.documents.len() + 1
                &&& final(self)@.documents.drop_last() == old(self)@.documents
                &&& final(self)@.documents.last().id == old(self)@.next_id
                &&& final(self)@.documents.last().name@ == name@
                &&& final(self)@.documents.last().time == time
                &&& final(self)@.documents.last().company_id == company_id
                &&& final(self)@ == (LedgerState {
                    documents: final(self)@.documents,
                    next_id: old(self)@.next_id + 1,
                    ..old(self)@
                })
                &&& r matches Ok(v) && shows_document(v, final(self)@.documents.last())
            },
    {
        proof {
            lemma_index_of(self.companies@, company_id);
        }
        if find(&self.companies, company_id).is_none() {
            return Err(Error::ObjectNotFound);
        }
        if self.next_id == i64::MAX {
            return Err(ids_exhausted());
        }
        let row = DocumentRow { id: self.next_id, name: name.to_owned(), time, company_id };
        let view = Self::document_view(&row);
        proof {
            lemma_push_fresh(self.documents@, row, self.next_id as int);
        }
        self.documents.push(row);
        self.next_id = self.next_id + 1;
        proof {
            assert(self.documents@.drop_last() =~= old(self).documents@);
            assert(keys_below(self.users@, self.next_id as int));
            assert(keys_below(self.companies@, self.next_id as int));
            assert(keys_below(self.funders@, self.next_id as int));
            assert(keys_below(self.expenses@, self.next_id as int));
            assert(keys_below(self.incomes@, self.next_id as int));
        }
        Ok(view)
    }

    /// Records a document at the current time; see `create_document_at`.
    pub fn create_document(&mut self, company_id: i64, name: &str) -> (r: Result<Document, Error>)
        requires
            old(self)@.wf(),
        ensures
            final(self)@.wf(),
            !has_key(old(self)@.companies, company_id) ==> r == Err::<Document, Error>(Error::ObjectNotFound) && final(self)@ == old(self)@,
            has_key(old(self)@.companies, company_id) && old(self)@.next_id == i64::MAX ==> (r matches Err(Error::Other(_)))
                && final(self)@ == old(self)@,
            has_key(old(self)@.companies, company_id) && old(self)@.next_id < i64::MAX ==> {
                &&& final(self)@.documents.len() == old(self)@.documents.len() + 1
                &&& final(self)@.documents.drop_last() == old(self)@.documents
                &&& final(self)@.documents.last().id == old(self)@.next_id
                &&& final(self)@.documents.last().name@ == name@
                &&& final(self)@.documents.last().company_id == company_id
                &&& final(self)@ == (LedgerState {
                    documents: final(self)@.documents,
                    next_id: old(self)@.next_id + 1,
                    ..old(self)@
                })
                &&& r matches Ok(v) && shows_document(v, final(self)@.documents.last())
            },
    {
        let time = now_millis();
        self.create_document_at(company_id, name, time)
    }

    /// The documents of company `company_id`, in order of creation, or
    /// `ObjectNotFound` where there is no such company.
    pub fn get_documents(&self, company_id: i64) -> (r: Result<Vec<Document>, Error>)
        ensures
            !has_key(self@.companies, company_id) ==> (r matches Err(Error::ObjectNotFound)),
            has_key(self@.companies, company_id) ==> (r matches Ok(v) && {
                &&& v@.len() == documents_of(self@.documents, company_id, self@.documents.len() as int).len()
                &&& forall|k: int| 0 <= k < v@.len() ==> shows_document(
                    #[trigger] v@[k],
                    documents_of(self@.documents, company_id, self@.documents.len() as int)[k],
                )
            }),
    {
        proof {
            lemma_index_of(self.companies@, company_id);
        }
        if find(&self.companies, company_id).is_none() {
            return Err(Error::ObjectNotFound);
        }
        let mut r: Vec<Document> = Vec::new();
        let mut k: usize = 0;
        while k < self.documents.len()
            invariant
                k <= self.documents@.len(),
                r@.len() == documents_of(self@.documents, company_id, k as int).len(),
                forall|j: int| 0 <= j < r@.len() ==> shows_document(#[trigger] r@[j], documents_of(self@.documents, company_id, k as int)[j]),
            decreases self.documents@.len() - k,
        {
            if self.documents[k].company_id == company_id {
                r.push(Self::document_view(&self.documents[k]));
            }
            k = k + 1;
            proof {
                let prev = documents_of(self@.documents, company_id, k - 1);
                let cur = documents_of(self@.documents, company_id, k as int);
                assert forall|j: int| 0 <= j < r@.len() implies shows_document(#[trigger] r@[j], cur[j]) by {
                    if j < prev.len() {
                        assert(cur[j] == prev[j]);
                    }
                }
            }
        }
        Ok(r)
    }

    /// Deletes document `id` and hands back what it was, so that its bytes can be removed.
    pub fn delete_document(&mut self, id: i64) -> (r: Result<Document, Error>)
        requires
            old(self)@.wf(),
        ensures
            final(self)@.wf(),
            !has_key(old(self)@.documents, id) ==> r == Err::<Document, Error>(Error::ObjectNotFound) && final(self)@ == old(self)@,
            has_key(old(self)@.documents, id) ==> {
                &&& r matches Ok(v) && shows_document(v, old(self)@.documents[index_of(old(self)@.documents, id)])
                &&& final(self)@ == (LedgerState {
                    documents: old(self)@.documents.remove(index_of(old(self)@.documents, id)),
                    ..old(self)@
                })
            },
    {
        proof {
            lemma_index_of(self.documents@, id);
        }
        match find(&self.documents, id) {
            None => Err(Error::ObjectNotFound),
            Some(k) => {
                proof {
                    lemma_remove_keys(self.documents@, k as int, self.next_id as int);
                }
                let row = self.documents.remove(k);
                Ok(Self::document_view(&row))
            },
        }
    }

    /// Settles a removal after the bytes of a deleted document were removed, or
    /// failed to be: on failure the record that `delete_document` handed back is
    /// put back, so that no bytes outlive their record. It is put back only where
    /// its company still exists and its id is still free.
    pub fn settle_removal(&mut self, doc: &Document, failure: Option<String>) -> (r: Result<(), Error>)
        requires
            old(self)@.wf(),
        ensures
            final(self)@.wf(),
            failure is None ==> r == Ok::<(), Error>(()) && final(self)@ == old(self)@,
            failure is Some ==> r == Err::<(), Error>(Error::Io(failure.unwrap())),
            failure is Some && restorable(old(self)@, *doc) ==> {
                &&& final(self)@.documents.len() == old(self)@.documents.len() + 1
                &&& final(self)@.documents.drop_last() == old(self)@.documents
                &&& final(self)@.documents.last() == (DocumentRow {
                    id: doc.id,
                    name: doc.name,
                    time: doc.time,
                    company_id: doc.company_id,
                })
                &&& final(self)@ == (LedgerState { documents: final(self)@.documents, ..old(self)@ })
            },
            failure is Some && !restorable(old(self)@, *doc) ==> final(self)@ == old(self)@,
    {
        match failure {
            None => Ok(()),
            Some(message) => {
                proof {
                    lemma_index_of(self.companies@, doc.company_id);
                    lemma_index_of(self.documents@, doc.id);
                }
                if find(&self.companies, doc.company_id).is_some() && find(&self.documents, doc.id).is_none()
                    && doc.id < self.next_id {
                    let row = DocumentRow { id: doc.id, name: doc.name.clone(), time: doc.time, company_id: doc.company_id };
                    proof {
                        lemma_push_absent(self.documents@, row, self.next_id as int);
                    }
                    self.documents.push(row);
                    proof {
                        assert(self.documents@.drop_last() =~= old(self).documents@);
                        assert forall|k: int| 0 <= k < self.documents@.len() implies has_key(self.companies@, #[trigger] self.documents@[k].company_id) by {
                            if k < old(self).documents@.len() {
                                assert(self.documents@[k] == old(self).documents@[k]);
                            }
                        }
                    }
                }
                Err(Error::Io(message))
            },
        }
    }

    /// Settles an upload after the bytes of `doc` were written, or failed to be:
    /// on failure the document's record is deleted again, so that no record
    /// outlives bytes that were never written.
    pub fn settle_upload(&mut self, doc: Document, failure: Option<String>) -> (r: Result<Document, Error>)
        requires
            old(self)@.wf(),
        ensures
            final(self)@.wf(),
            failure is None ==> r == Ok::<Document, Error>(doc) && final(self)@ == old(self)@,
            failure is Some ==> r == Err::<Document, Error>(Error::Io(failure.unwrap())),
            failure is Some && !has_key(old(self)@.documents, doc.id) ==> final(self)@ == old(self)@,
            failure is Some && has_key(old(self)@.documents, doc.id) ==> final(self)@ == (LedgerState {
                documents: old(self)@.documents.remove(index_of(old(self)@.documents, doc.id)),
                ..old(self)@
            }),
    {
        match failure {
            None => Ok(doc),
            Some(message) => {
                let _ = self.delete_document(doc.id);
                Err(Error::Io(message))
            },
        }
    }
}

} // verus!
