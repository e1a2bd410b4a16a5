//! Properties of the ledger that relate several operations, stated over the
//! spec functions that the operations' own contracts use.

use vstd::prelude::*;
use crate::error::Error;
use crate::models::{Company, ExpenseRow, Funder, FunderUpdate};
use crate::store::{
    after_company_updated, after_expense, after_expense_deleted, company_matches,
    credit_overflows, expense_refusal, funders_updated, matching_companies, renames,
    search_outcome, LedgerState,
};
use crate::table::{has_key, index_of, lemma_index_of, lemma_index_of_update, lemma_update_same_key, Keyed};
use crate::text::lower_of;

verus! {

/// An expense that is not refused lowers its user's balance by exactly its
/// value, leaves every other user as it was, and adds exactly one row.
pub proof fn law_expense_debits_exactly(st: LedgerState, uid: i64, cid: i64, value: i64, description: String, time: i64)
    requires
        st.wf(),
        expense_refusal(st, uid, cid, value) is None,
    ensures
        ({
            let after = after_expense(st, uid, cid, value, description, time);
            &&& has_key(after.users, uid)
            &&& after.user(uid).value == st.user(uid).value - value
            &&& after.user(uid).value >= 0
            &&& forall|i: int| 0 <= i < st.users.len() && st.users[i].id != uid ==> #[trigger] after.users[i] == st.users[i]
            &&& after.expenses.len() == st.expenses.len() + 1
            &&& after.expenses.drop_last() == st.expenses
        }),
{
    lemma_index_of(st.users, uid);
    let i = index_of(st.users, uid);
    let after = after_expense(st, uid, cid, value, description, time);
    let user = after.users[i];
    lemma_update_same_key(st.users, i, user, st.next_id);
    lemma_index_of(after.users, uid);
    assert(after.expenses.drop_last() =~= st.expenses);
}

/// An expense of a value that is not positive, or above the user's balance, is
/// refused; the contract of `create_expense_at` says that nothing then changes.
pub proof fn law_expense_refusals(st: LedgerState, uid: i64, cid: i64, value: i64)
    requires
        has_key(st.users, uid),
        has_key(st.companies, cid),
    ensures
        value <= 0 ==> expense_refusal(st, uid, cid, value) == Some(Error::InvalidValue),
        value > 0 && value > st.user(uid).value ==> expense_refusal(st, uid, cid, value) == Some(
            Error::NotEnoughUserValue(value, st.user(uid).value),
        ),
{
}

/// Deleting an expense right after creating it restores the users, the
/// payer's balance among them, and the expense rows, exactly as they were.
pub proof fn law_delete_restores_balance(st: LedgerState, uid: i64, cid: i64, value: i64, description: String, time: i64)
    requires
        st.wf(),
        expense_refusal(st, uid, cid, value) is None,
    ensures
        ({
            let created = after_expense(st, uid, cid, value, description, time);
            let id = st.next_id as i64;
            &&& has_key(created.expenses, id)
            &&& !credit_overflows(created, id)
            &&& after_expense_deleted(created, id).users == st.users
            &&& after_expense_deleted(created, id).expenses == st.expenses
        }),
{
    lemma_index_of(st.users, uid);
    let i = index_of(st.users, uid);
    let created = after_expense(st, uid, cid, value, description, time);
    let id = st.next_id as i64;
    let user = created.users[i];
    lemma_update_same_key(st.users, i, user, st.next_id);
    assert(index_of(created.users, uid) == i);
    let k = created.expenses.len() - 1;
    assert(created.expenses[k].key() == id);
    assert(index_of(created.expenses, id) == k);
    lemma_index_of(created.expenses, id);
    lemma_index_of(created.users, uid);
    let deleted = after_expense_deleted(created, id);
    assert(deleted.users =~= st.users);
    assert(deleted.expenses =~= st.expenses);
}

/// Two debits of a whole balance `B > 0` against one user, one after the
/// other: the first is accepted and leaves zero, the second is refused for want
/// of balance. The balance never goes below zero.
pub proof fn law_second_full_debit_refused(st: LedgerState, uid: i64, cid: i64, description: String, time: i64)
    requires
        st.wf(),
        has_key(st.users, uid),
        has_key(st.companies, cid),
        st.user(uid).value > 0,
    ensures
        ({
            let b = st.user(uid).value;
            let first = after_expense(st, uid, cid, b, description, time);
            &&& expense_refusal(st, uid, cid, b) is None
            &&& first.user(uid).value == 0
            &&& expense_refusal(first, uid, cid, b) == Some(Error::NotEnoughUserValue(b, 0))
        }),
{
    lemma_index_of(st.users, uid);
    lemma_index_of(st.companies, cid);
    let b = st.user(uid).value;
    let first = after_expense(st, uid, cid, b, description, time);
    law_expense_debits_exactly(st, uid, cid, b, description, time);
    assert(first.companies == st.companies);
}

proof fn lemma_matching_len_zero(st: LedgerState, q: Seq<char>, n: int)
    requires
        0 <= n <= st.companies.len(),
        forall|i: int| 0 <= i < st.companies.len() ==> !company_matches(st, q, #[trigger] st.companies[i]),
    ensures
        matching_companies(st, q, n).len() == 0,
    decreases n,
{
    if n > 0 {
        lemma_matching_len_zero(st, q, n - 1);
    }
}

proof fn lemma_matching_contains(st: LedgerState, q: Seq<char>, n: int, i: int)
    requires
        0 <= i < n <= st.companies.len(),
        company_matches(st, q, st.companies[i]),
    ensures
        matching_companies(st, q, n).contains(st.companies[i]),
    decreases n,
{
    if i < n - 1 {
        lemma_matching_contains(st, q, n - 1, i);
        let p = matching_companies(st, q, n - 1);
        let j = choose|j: int| 0 <= j < p.len() && p[j] == st.companies[i];
        if company_matches(st, q, st.companies[n - 1]) {
            assert(matching_companies(st, q, n)[j] == st.companies[i]);
        }
    } else {
        let m = matching_companies(st, q, n);
        assert(m[m.len() - 1] == st.companies[i]);
    }
}

/// A search that no company matches fails with `ObjectNotFound`, not with an
/// empty list.
pub proof fn law_search_without_match_is_not_found(st: LedgerState, q: Seq<char>, r: Result<Vec<Company>, Error>)
    requires
        search_outcome(st, q, r),
        forall|i: int| 0 <= i < st.companies.len() ==> !company_matches(st, q, #[trigger] st.companies[i]),
    ensures
        r == Err::<Vec<Company>, Error>(Error::ObjectNotFound),
{
    lemma_matching_len_zero(st, q, st.companies.len() as int);
}

/// Every company that matches the query, by its id text, its commercial name
/// or one of its funders' names, is among the search results.
pub proof fn law_search_finds_every_match(st: LedgerState, q: Seq<char>, r: Result<Vec<Company>, Error>, i: int)
    requires
        search_outcome(st, q, r),
        0 <= i < st.companies.len(),
        company_matches(st, q, st.companies[i]),
    ensures
        r matches Ok(v) && v@.contains(st.companies[i]),
{
    lemma_matching_contains(st, q, st.companies.len() as int, i);
}

/// Search does not see case: two queries with the same lower-case form give
/// the same outcome.
pub proof fn law_search_ignores_case(
    st: LedgerState,
    s1: Seq<char>,
    s2: Seq<char>,
    r1: Result<Vec<Company>, Error>,
    r2: Result<Vec<Company>, Error>,
)
    requires
        lower_of(s1) == lower_of(s2),
        search_outcome(st, lower_of(s1), r1),
        search_outcome(st, lower_of(s2), r2),
    ensures
        r1 is Ok <==> r2 is Ok,
        r1 is Err ==> r1 == r2,
        r1 matches Ok(v1) ==> (r2 matches Ok(v2) && v1@ == v2@),
{
}

proof fn lemma_same_funders_unchanged(fs: Seq<Funder>, ups: Seq<FunderUpdate>, cid: i64, next: int, n: int)
    requires
        0 <= n <= ups.len(),
        forall|k: int| 0 <= k < ups.len() ==> renames(fs, #[trigger] ups[k]) && fs[index_of(fs, ups[k].id.unwrap())].name == ups[k].name,
    ensures
        funders_updated(fs, ups, cid, next, n) == (fs, next),
    decreases n,
{
    if n > 0 {
        lemma_same_funders_unchanged(fs, ups, cid, next, n - 1);
        let u = ups[n - 1];
        assert(renames(fs, u));
        let k = index_of(fs, u.id.unwrap());
        lemma_index_of(fs, u.id.unwrap());
        assert(fs.update(k, Funder { name: u.name, ..fs[k] }) =~= fs);
    }
}

/// Updating a company with the attributes it already has, and with funder
/// entries that each name an existing funder under its current name, takes no
/// new id, so it is not refused, and leaves the whole store as it was.
pub proof fn law_update_with_same_values_changes_nothing(st: LedgerState, id: i64, ups: Seq<FunderUpdate>)
    requires
        has_key(st.companies, id),
        forall|k: int| 0 <= k < ups.len() ==> renames(st.funders, #[trigger] ups[k]) && st.funders[index_of(
            st.funders,
            ups[k].id.unwrap(),
        )].name == ups[k].name,
    ensures
        funders_updated(st.funders, ups, id, st.next_id, ups.len() as int).1 == st.next_id,
        after_company_updated(st, id, st.company(id).info, ups) == st,
{
    lemma_same_funders_unchanged(st.funders, ups, id, st.next_id, ups.len() as int);
    lemma_index_of(st.companies, id);
    let i = index_of(st.companies, id);
    assert(st.companies.update(i, Company { id, info: st.company(id).info }) =~= st.companies);
}

/// What the first `n` expense rows debited from user `uid`.
pub open spec fn spent(s: Seq<ExpenseRow>, uid: i64, n: int) -> int
    decreases n,
{
    if n <= 0 {
        0
    } else if s[n - 1].user_id == uid {
        spent(s, uid, n - 1) + s[n - 1].value
    } else {
        spent(s, uid, n - 1)
    }
}

/// User `uid`'s balance together with the value its extant expenses took from it.
pub open spec fn holdings(st: LedgerState, uid: i64) -> int {
    st.user(uid).value + spent(st.expenses, uid, st.expenses.len() as int)
}

proof fn lemma_spent_prefix(s: Seq<ExpenseRow>, t: Seq<ExpenseRow>, uid: i64, n: int)
    requires
        0 <= n <= s.len(),
        n <= t.len(),
        forall|i: int| 0 <= i < n ==> s[i] == t[i],
    ensures
        spent(s, uid, n) == spent(t, uid, n),
    decreases n,
{
    if n > 0 {
        lemma_spent_prefix(s, t, uid, n - 1);
    }
}

proof fn lemma_spent_remove(s: Seq<ExpenseRow>, uid: i64, k: int, n: int)
    requires
        0 <= k < s.len(),
        k < n <= s.len(),
    ensures
        spent(s.remove(k), uid, n - 1) == spent(s, uid, n) - (if s[k].user_id == uid { s[k].value as int } else { 0 }),
    decreases n,
{
    if n - 1 > k {
        lemma_spent_remove(s, uid, k, n - 1);
        assert(s.remove(k)[n - 2] == s[n - 1]);
    } else {
        lemma_spent_prefix(s.remove(k), s, uid, k);
    }
}

/// Creating an expense moves value from a user's balance into the user's
/// expenses: every user's holdings stay as they were.
pub proof fn law_expense_keeps_holdings(st: LedgerState, uid: i64, cid: i64, value: i64, description: String, time: i64, w: i64)
    requires
        st.wf(),
        expense_refusal(st, uid, cid, value) is None,
        has_key(st.users, w),
    ensures
        has_key(after_expense(st, uid, cid, value, description, time).users, w),
        holdings(after_expense(st, uid, cid, value, description, time), w) == holdings(st, w),
{
    lemma_index_of(st.users, uid);
    lemma_index_of(st.users, w);
    let i = index_of(st.users, uid);
    let after = after_expense(st, uid, cid, value, description, time);
    lemma_update_same_key(st.users, i, after.users[i], st.next_id);
    lemma_index_of(after.users, w);
    let n = st.expenses.len() as int;
    lemma_spent_prefix(after.expenses, st.expenses, w, n);
    assert(after.expenses[n] == after.expenses.last());
}

/// Deleting an expense moves its value back from the expenses to its user's
/// balance: the holdings of every user that exists stay as they were.
pub proof fn law_expense_deletion_keeps_holdings(st: LedgerState, id: i64, w: i64)
    requires
        st.wf(),
        has_key(st.expenses, id),
        !credit_overflows(st, id),
        has_key(st.users, w),
    ensures
        has_key(after_expense_deleted(st, id).users, w),
        holdings(after_expense_deleted(st, id), w) == holdings(st, w),
{
    lemma_index_of(st.expenses, id);
    lemma_index_of(st.users, w);
    let k = index_of(st.expenses, id);
    let e = st.expenses[k];
    let after = after_expense_deleted(st, id);
    lemma_spent_remove(st.expenses, w, k, st.expenses.len() as int);
    if has_key(st.users, e.user_id) {
        lemma_index_of(st.users, e.user_id);
        let i = index_of(st.users, e.user_id);
        lemma_update_same_key(st.users, i, after.users[i], st.next_id);
    }
    lemma_index_of(after.users, w);
}

/// Expense requests of `values` by user `uid` to company `cid`, served one at
/// a time as `create_expense_at` serves them (each with `description` and
/// `time`): the store after them, how many were accepted, and their total.
pub open spec fn serve_expenses(
    st: LedgerState,
    uid: i64,
    cid: i64,
    values: Seq<i64>,
    description: String,
    time: i64,
) -> (LedgerState, int, int)
    decreases values.len(),
{
    if values.len() == 0 {
        (st, 0, 0)
    } else {
        let (s, n, total) = serve_expenses(st, uid, cid, values.drop_last(), description, time);
        let v = values.last();
        if expense_refusal(s, uid, cid, v) is None && s.next_id < i64::MAX {
            (after_expense(s, uid, cid, v, description, time), n + 1, total + v)
        } else {
            (s, n, total)
        }
    }
}

/// However many expense requests against one user are served, one at a time:
/// the balance ends as the start balance less the total of the accepted ones,
/// never below zero, and each accepted request added exactly one row while
/// each refused one added none.
pub proof fn law_served_expenses_never_overdraw(
    st: LedgerState,
    uid: i64,
    cid: i64,
    values: Seq<i64>,
    description: String,
    time: i64,
)
    requires
        st.wf(),
        has_key(st.users, uid),
    ensures
        ({
            let (f, n, total) = serve_expenses(st, uid, cid, values, description, time);
            &&& has_key(f.users, uid)
            &&& f.user(uid).value == st.user(uid).value - total
            &&& f.user(uid).value >= 0
            &&& 0 <= n <= values.len()
            &&& f.expenses.len() == st.expenses.len() + n
        }),
    decreases values.len(),
{
    lemma_index_of(st.users, uid);
    if values.len() > 0 {
        law_served_expenses_never_overdraw(st, uid, cid, values.drop_last(), description, time);
        let (s, n, total) = serve_expenses(st, uid, cid, values.drop_last(), description, time);
        let v = values.last();
        if expense_refusal(s, uid, cid, v) is None && s.next_id < i64::MAX {
            lemma_index_of(s.users, uid);
            let i = index_of(s.users, uid);
            let after = after_expense(s, uid, cid, v, description, time);
            lemma_index_of_update(s.users, i, after.users[i], uid);
            lemma_index_of(after.users, uid);
        }
    }
}

} // verus!
