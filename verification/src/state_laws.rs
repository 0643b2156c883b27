//! What is decided about tokens, settings, queries and what is shown.
use crate::config::{
    below_dir, config_dir_of, cooldown_of, data_dir_of, first_said, truth_spelled, EnvConfig,
    FileConfig,
};
use crate::logging::{decision_name, is_cut, shown_label};
use crate::models::{is_lower_hex, is_uuid_text, Account, AccountStatus, BackendId, RequestLogEntry};
use crate::monitor::{
    account_totals, fits, sessions, shown, shows_accounts, shows_request, sums, totals_of,
    MonitorAccount, MonitorAccountView, MonitorRequest, RECENT_REQUESTS,
};
use crate::pool::{AccountState, BindingView, Decision, PoolView, DEFAULT_BINDING_CAP};
use crate::proxy::{lists, ListedView, MAX_BODY_BYTES};
use crate::resets::{ManagerView, RateLimit, SnapshotView, Window};
use crate::startup::{is_plain_id, known_key, sources, unnamed};
use crate::statements::{
    account_cells, opt_number_cell, opt_text_cell, record_cells, text_cell, token_cells, Statement,
};
use crate::store::{
    count_for, first_minute, minute_of, only_if, status_name, status_named, RecordView, SqlView,
    UsageQuery, UsageSummary, SUMMARY_COLUMNS,
};
use crate::text::{
    below, dec, has_prefix, is_blank_text, joined, opt_view, replaced, split_of, without,
};
use crate::text_laws::{law_removed_character_is_gone, law_word_is_replaced};
use crate::tokens::{due, is_due, lasts, TokenUpdate};
use crate::top::{
    all_inflight, healthy_of, is_origin, nearest_row, quota_tone, quota_words, span_text,
    status_words, token_of, url_of, whole_seconds, window_detail, window_length, window_words,
    PercentText, QuotaText, Tone,
};
use crate::ui::{bounded, enabled, groups_known, inflight_of, is_dimension, query_fault};
use vstd::prelude::*;
use vstd::utf8::encode_utf8;

verus! {

// ---------------------------------------------------------------------------
// Lists
// ---------------------------------------------------------------------------

proof fn lemma_pushed<A>(s: Seq<A>, x: A, y: A)
    ensures
        s.push(x).contains(y) <==> s.contains(y) || y == x,
{
    let p = s.push(x);
    assert(p[s.len() as int] == x);
    if p.contains(y) {
        let i = choose|i: int| 0 <= i < p.len() && p[i] == y;
        if i < s.len() {
            assert(s[i] == y);
        }
    }
    if s.contains(y) {
        let i = choose|i: int| 0 <= i < s.len() && s[i] == y;
        assert(p[i] == y);
    }
}

// ---------------------------------------------------------------------------
// Tokens
// ---------------------------------------------------------------------------

/// A token is rotated if it is that of a Codex account that can renew it, and was
/// not renewed for a day.
pub proof fn law_codex_tokens_rotate_daily(a: Account, now: i64)
    ensures
        is_due(a, now as int) <==> a.backend == BackendId::Codex && a.refresh_token is Some && now
            - a.token_refreshed_at >= 86_400_000,
{
}

/// The accounts that are due are those of the list whose token is to be rotated.
pub proof fn law_due_accounts_are_those_to_rotate(s: Seq<Account>, now: int, a: Account)
    ensures
        due(s, now).contains(a) <==> s.contains(a) && is_due(a, now),
        due(s, now).len() <= s.len(),
    decreases s.len(),
{
    if s.len() > 0 {
        let h = s.drop_last();
        law_due_accounts_are_those_to_rotate(h, now, a);
        lemma_pushed(h, s.last(), a);
        assert(h.push(s.last()) =~= s);
        lemma_pushed(due(h, now), s.last(), a);
    }
}

/// A stored token is used while more than five minutes of it are left.
pub proof fn law_token_is_used_until_five_minutes_before_its_end(a: Account, now: i64)
    ensures
        lasts(a, now as int) <==> a.access_token is Some && a.expires_at - now > 300_000,
{
}

// ---------------------------------------------------------------------------
// Start and settings
// ---------------------------------------------------------------------------

/// The key of the proxy is the configured one, unless that is empty; else the
/// stored one.
pub proof fn law_configured_key_comes_first(
    configured: Option<Seq<char>>,
    stored: Option<Seq<char>>,
)
    ensures
        configured is Some && configured->0.len() > 0 ==> known_key(configured, stored)
            == configured,
        configured is None || configured->0.len() == 0 ==> known_key(configured, stored) == stored,
{
}

/// The catalog of Copilot is read with the accounts of Copilot that have a token.
pub proof fn law_catalog_is_read_with_copilot_accounts(s: Seq<Account>, a: Account)
    ensures
        sources(s).contains(a) <==> s.contains(a) && a.backend == BackendId::Copilot
            && a.refresh_token is Some,
    decreases s.len(),
{
    if s.len() > 0 {
        let h = s.drop_last();
        law_catalog_is_read_with_copilot_accounts(h, a);
        lemma_pushed(h, s.last(), a);
        assert(h.push(s.last()) =~= s);
        lemma_pushed(sources(h), s.last(), a);
    }
}

/// The accounts whose identity is looked up are those whose label is the name of a
/// service or blank.
pub proof fn law_unnamed_accounts_have_a_generic_label(s: Seq<Account>, a: Account)
    ensures
        unnamed(s).contains(a) <==> s.contains(a) && (a.label@ == "chatgpt"@ || a.label@
            == "github"@ || is_blank_text(a.label@)),
    decreases s.len(),
{
    if s.len() > 0 {
        let h = s.drop_last();
        law_unnamed_accounts_have_a_generic_label(h, a);
        lemma_pushed(h, s.last(), a);
        assert(h.push(s.last()) =~= s);
        lemma_pushed(unnamed(h), s.last(), a);
    }
}

/// A minted key is 32 hexadecimal digits.
pub proof fn law_minted_key_is_hexadecimal(s: Seq<char>)
    requires
        is_plain_id(s),
    ensures
        s.len() == 32,
        forall|i: int| 0 <= i < s.len() ==> is_lower_hex(#[trigger] s[i]),
{
    let id = choose|id: Seq<char>| #[trigger] is_uuid_text(id) && s == without(id, '-');
    let a = id.subrange(0, 8);
    let b = id.subrange(9, 13);
    let c = id.subrange(14, 18);
    let d = id.subrange(19, 23);
    let e = id.subrange(24, 36);
    let dash = seq!['-'];
    assert(id[8] == '-' && id[13] == '-' && id[18] == '-' && id[23] == '-');
    assert(id =~= a + dash + b + dash + c + dash + d + dash + e);
    lemma_hex(id, 0, 8);
    lemma_hex(id, 9, 13);
    lemma_hex(id, 14, 18);
    lemma_hex(id, 19, 23);
    lemma_hex(id, 24, 36);
    law_removed_character_is_gone(a, dash, '-');
    law_removed_character_is_gone(a + dash, b, '-');
    law_removed_character_is_gone(a + dash + b, dash, '-');
    law_removed_character_is_gone(a + dash + b + dash, c, '-');
    law_removed_character_is_gone(a + dash + b + dash + c, dash, '-');
    law_removed_character_is_gone(a + dash + b + dash + c + dash, d, '-');
    law_removed_character_is_gone(a + dash + b + dash + c + dash + d, dash, '-');
    law_removed_character_is_gone(a + dash + b + dash + c + dash + d + dash, e, '-');
    law_removed_character_is_gone(b, dash, '-');
    law_removed_character_is_gone(c, dash, '-');
    law_removed_character_is_gone(d, dash, '-');
    law_removed_character_is_gone(e, dash, '-');
    assert(s =~= a + b + c + d + e);
}

proof fn lemma_hex(id: Seq<char>, from: int, to: int)
    requires
        is_uuid_text(id),
        (from == 0 && to == 8) || (from == 9 && to == 13) || (from == 14 && to == 18) || (from == 19
            && to == 23) || (from == 24 && to == 36),
    ensures
        !id.subrange(from, to).contains('-'),
        forall|i: int| 0 <= i < to - from ==> is_lower_hex(#[trigger] id.subrange(from, to)[i]),
{
    let p = id.subrange(from, to);
    assert forall|i: int| 0 <= i < to - from implies is_lower_hex(#[trigger] p[i]) by {
        assert(p[i] == id[from + i]);
    }
    if p.contains('-') {
        let i = choose|i: int| 0 <= i < p.len() && p[i] == '-';
        assert(is_lower_hex(p[i]));
    }
}

/// A cooldown is the configured milliseconds, else the configured seconds, else half
/// an hour.
pub proof fn law_cooldown_is_configured(ms: u64, secs: u64)
    ensures
        cooldown_of(Some(ms), None) == ms,
        cooldown_of(Some(ms), Some(secs)) == ms,
        secs <= 18_446_744_073_709_551 ==> cooldown_of(None, Some(secs)) == 1000 * secs,
        cooldown_of(None, None) == 1_800_000,
{
}

/// The environment comes before the file; and only `true` and `false` are read as
/// truth values.
pub proof fn law_environment_comes_first(env: Option<String>, file: Option<String>)
    ensures
        env is Some ==> first_said(env, file) == env,
        env is None ==> first_said(env, file) == file,
        env is Some && env->0@ == "true"@ ==> truth_spelled(env) == Some(true),
        env is Some && env->0@ == "false"@ ==> truth_spelled(env) == Some(false),
        env is Some && env->0@ != "true"@ && env->0@ != "false"@ ==> truth_spelled(env) is None,
        env is None ==> truth_spelled(env) is None,
{
    reveal_strlit("true");
    reveal_strlit("false");
    assert("true"@.len() != "false"@.len());
}

/// What lies below a directory is separated from it by one slash.
pub proof fn law_paths_are_joined_by_one_slash(dir: Seq<u8>, rest: Seq<u8>)
    ensures
        dir.len() > 0 && dir.last() != 47 ==> below_dir(dir, rest) == dir + seq![47u8] + rest,
        dir.len() > 0 && dir.last() == 47 ==> below_dir(dir, rest) == dir + rest,
        dir.len() == 0 ==> below_dir(dir, rest) == rest,
{
    assert(dir.push(47u8) + rest =~= dir + seq![47u8] + rest);
    if dir.len() == 0 {
        assert(dir + rest =~= rest);
    }
}

/// The directories are those that the environment names; else they lie below the
/// home, which is the root where it is not known.
pub proof fn law_directories_lie_below_the_home(env: EnvConfig)
    ensures
        env.config_dir is Some ==> config_dir_of(env) == env.config_dir->0@,
        env.data_dir is Some ==> data_dir_of(env) == env.data_dir->0@,
        env.config_dir is None && env.home is Some ==> config_dir_of(env) == below_dir(
            env.home->0@,
            encode_utf8(".config/underclass"@),
        ),
        env.data_dir is None && env.home is Some ==> data_dir_of(env) == below_dir(
            env.home->0@,
            encode_utf8(".local/share/underclass"@),
        ),
        env.config_dir is None && env.home is None ==> config_dir_of(env) == seq![47u8]
            + encode_utf8(".config/underclass"@),
        env.data_dir is None && env.home is None ==> data_dir_of(env) == seq![47u8] + encode_utf8(
            ".local/share/underclass"@,
        ),
{
}

// ---------------------------------------------------------------------------
// The store
// ---------------------------------------------------------------------------

/// The names under which backends and states are stored.
pub proof fn law_stored_names()
    ensures
        BackendId::Codex.name() == "codex"@,
        BackendId::Copilot.name() == "copilot"@,
        status_name(AccountStatus::Healthy) == "healthy"@,
        status_name(AccountStatus::Cooling) == "cooling"@,
        status_name(AccountStatus::AuthError) == "auth_error"@,
        status_name(AccountStatus::Disabled) == "disabled"@,
{
}

/// A state that is stored under no known name is read as healthy, a backend under no
/// known name is none.
pub proof fn law_unknown_names_are_read(s: Seq<char>)
    requires
        s != "cooling"@,
        s != "auth_error"@,
        s != "disabled"@,
    ensures
        status_named(s) == AccountStatus::Healthy,
        s != "codex"@ && s != "copilot"@ ==> BackendId::named(s) is None,
{
}

/// One where it holds, else none.
pub open spec fn one_if(b: bool) -> int {
    if b {
        1
    } else {
        0
    }
}

proof fn lemma_next<A>(s: Seq<A>, wanted: bool, x: A)
    ensures
        ({
            let t = s + only_if(wanted, x);
            &&& t.len() == s.len() + one_if(wanted)
            &&& wanted ==> t[s.len() as int] == x
            &&& forall|i: int| 0 <= i < s.len() ==> #[trigger] t[i] == s[i]
        }),
{
}

/// Each filter of a query that is given stands in it as one condition, with its
/// value at the place of its question mark.
pub proof fn law_filters_stand_at_their_values(q: UsageQuery)
    ensures
        ({
            let a = one_if(q.from_ms is Some);
            let b = a + one_if(q.to_ms is Some);
            let c = b + one_if(q.model is Some);
            let d = c + one_if(q.account_id is Some);
            let e = d + one_if(q.cache_key is Some);
            &&& q.from_ms is Some ==> q.conditions()[1] == "ts >= ?"@ && q.bounds()[0]
                == SqlView::Integer(q.from_ms->0 as int)
            &&& q.to_ms is Some ==> q.conditions()[1 + a] == "ts < ?"@ && q.bounds()[a]
                == SqlView::Integer(q.to_ms->0 as int)
            &&& q.model is Some ==> q.conditions()[1 + b] == "model = ?"@ && q.bounds()[b]
                == SqlView::Text(q.model->0@)
            &&& q.account_id is Some ==> q.conditions()[1 + c] == "account_id = ?"@ && q.bounds()[c]
                == SqlView::Text(q.account_id->0@)
            &&& q.cache_key is Some ==> q.conditions()[1 + d] == "cache_key = ?"@ && q.bounds()[d]
                == SqlView::Text(q.cache_key->0@)
            &&& q.missing_key == Some(true) ==> q.conditions()[1 + e] == "cache_key IS NULL"@
            &&& q.bounds().len() == e
            &&& q.conditions().len() == 1 + e + one_if(q.missing_key == Some(true))
            &&& q.conditions()[0] == "1=1"@
        }),
{
    let c0 = seq!["1=1"@];
    let c1 = c0 + only_if(q.from_ms is Some, "ts >= ?"@);
    let c2 = c1 + only_if(q.to_ms is Some, "ts < ?"@);
    let c3 = c2 + only_if(q.model is Some, "model = ?"@);
    let c4 = c3 + only_if(q.account_id is Some, "account_id = ?"@);
    let c5 = c4 + only_if(q.cache_key is Some, "cache_key = ?"@);
    let c6 = c5 + only_if(q.missing_key == Some(true), "cache_key IS NULL"@);
    lemma_next(c0, q.from_ms is Some, "ts >= ?"@);
    lemma_next(c1, q.to_ms is Some, "ts < ?"@);
    lemma_next(c2, q.model is Some, "model = ?"@);
    lemma_next(c3, q.account_id is Some, "account_id = ?"@);
    lemma_next(c4, q.cache_key is Some, "cache_key = ?"@);
    lemma_next(c5, q.missing_key == Some(true), "cache_key IS NULL"@);
    assert(q.conditions() == c6);
    let from = SqlView::Integer(q.from_ms->0 as int);
    let to = SqlView::Integer(q.to_ms->0 as int);
    let model = SqlView::Text(q.model->0@);
    let account = SqlView::Text(q.account_id->0@);
    let key = SqlView::Text(q.cache_key->0@);
    let b1 = only_if(q.from_ms is Some, from);
    let b2 = b1 + only_if(q.to_ms is Some, to);
    let b3 = b2 + only_if(q.model is Some, model);
    let b4 = b3 + only_if(q.account_id is Some, account);
    let b5 = b4 + only_if(q.cache_key is Some, key);
    lemma_next(b1, q.to_ms is Some, to);
    lemma_next(b2, q.model is Some, model);
    lemma_next(b3, q.account_id is Some, account);
    lemma_next(b4, q.cache_key is Some, key);
    assert(q.bounds() == b5);
}

/// A query is grouped by a dimension exactly if its list of dimensions names it.
pub proof fn law_query_groups_by_what_it_names(q: UsageQuery, name: Seq<char>)
    requires
        name == "model"@ || name == "account_id"@ || name == "cache_key"@,
    ensures
        q.groups().contains(name) <==> (q.group_by matches Some(s) && split_of(s@, ',').contains(
            name,
        )),
        q.groups().contains(name) ==> q.column(name) == name,
        !q.groups().contains(name) ==> q.column(name) == "NULL AS "@ + name,
        q.groups().len() <= 3,
{
    reveal_strlit("model");
    reveal_strlit("account_id");
    reveal_strlit("cache_key");
    reveal_strlit("");
    let g = q.groups();
    let m = q.groups_by("model"@);
    let a = q.groups_by("account_id"@);
    let k = q.groups_by("cache_key"@);
    assert("model"@.len() == 5 && "account_id"@.len() == 10 && "cache_key"@.len() == 9);
    if m {
        assert(g[0] == "model"@);
    }
    if a {
        assert(g[one_if(m)] == "account_id"@);
    }
    if k {
        assert(g[one_if(m) + one_if(a)] == "cache_key"@);
    }
    assert(forall|i: int|
        0 <= i < g.len() ==> (#[trigger] g[i] == "model"@ && m) || (g[i] == "account_id"@ && a) || (
        g[i] == "cache_key"@ && k));
    if q.group_by is None {
        let p = split_of(""@, ',');
        assert(p =~= seq![Seq::<char>::empty()]);
        if p.contains(name) {
            let i = choose|i: int| 0 <= i < p.len() && p[i] == name;
            assert(p[i].len() == 0);
        }
    }
}

/// A page has as many rows as are asked for, from one to a thousand, and a hundred
/// where none are asked for; it starts where it is asked to.
pub proof fn law_page_is_as_asked(q: UsageQuery)
    ensures
        q.limit is None ==> q.page_rows() == 100,
        q.limit is Some && 1 <= q.limit->0 <= 1000 ==> q.page_rows() == q.limit->0,
        q.limit is Some && q.limit->0 == 0 ==> q.page_rows() == 1,
        q.limit is Some && q.limit->0 > 1000 ==> q.page_rows() == 1000,
        q.offset is None ==> q.page_start() == 0,
        q.offset is Some && q.offset->0 <= 0x7fff_ffff_ffff_ffff ==> q.page_start() == q.offset->0,
{
}

/// A minute has the sixty thousand milliseconds from its start on, also before the
/// epoch; and the sixty minutes that are shown end with the present one.
pub proof fn law_minutes_partition_the_time(ms: int, now: int)
    ensures
        60_000 * minute_of(ms) <= ms < 60_000 * minute_of(ms) + 60_000,
        first_minute(now) + 59 == minute_of(now),
{
}

/// The count of a minute is that of its row; a minute without a row has none.
pub proof fn law_minute_counts_its_row(rows: Seq<(i64, i64)>, minute: int, i: int)
    ensures
        0 <= i < rows.len() && rows[i].0 == minute && (forall|j: int|
            i < j < rows.len() ==> (#[trigger] rows[j]).0 != minute) ==> count_for(rows, minute)
            == rows[i].1,
        (forall|j: int| 0 <= j < rows.len() ==> (#[trigger] rows[j]).0 != minute) ==> count_for(
            rows,
            minute,
        ) == 0,
    decreases rows.len(),
{
    if rows.len() > 0 {
        let h = rows.drop_last();
        law_minute_counts_its_row(h, minute, i);
        assert(rows[rows.len() - 1] == rows.last());
        if forall|j: int| 0 <= j < rows.len() ==> (#[trigger] rows[j]).0 != minute {
            assert forall|j: int| 0 <= j < h.len() implies (#[trigger] h[j]).0 != minute by {
                assert(h[j] == rows[j]);
            }
        }
        if 0 <= i < h.len() && (forall|j: int|
            i < j < rows.len() ==> (#[trigger] rows[j]).0 != minute) {
            assert forall|j: int| i < j < h.len() implies (#[trigger] h[j]).0 != minute by {
                assert(h[j] == rows[j]);
            }
            assert(rows[rows.len() - 1].0 != minute);
        }
    }
}

// ---------------------------------------------------------------------------
// What is shown
// ---------------------------------------------------------------------------

/// The totals are the sums of the rows, of each count by itself; rows one after the
/// other add up.
pub proof fn law_totals_sum_the_rows(a: Seq<UsageSummary>, r: UsageSummary)
    ensures
        sums(Seq::empty()) == (0int, 0int, 0int, 0int),
        sums(a.push(r)) == (
            sums(a).0 + r.requests,
            sums(a).1 + r.unknown_requests,
            sums(a).2 + r.input_tokens,
            sums(a).3 + r.output_tokens,
        ),
        totals_of(a) matches Some(t) ==> t.attempts == sums(a).0 && t.unknown == sums(a).1
            && t.input_tokens == sums(a).2 && t.output_tokens == sums(a).3,
        totals_of(a) is None ==> !(i64::MIN <= sums(a).0 <= i64::MAX && i64::MIN <= sums(a).1
            <= i64::MAX && i64::MIN <= sums(a).2 <= i64::MAX && i64::MIN <= sums(a).3 <= i64::MAX),
{
    assert(a.push(r).drop_last() =~= a);
}

/// The totals of an account are those of its row, and none without a row.
pub proof fn law_account_totals_are_those_of_its_row(
    rows: Seq<UsageSummary>,
    id: Seq<char>,
    i: int,
)
    ensures
        0 <= i < rows.len() && opt_view(rows[i].account_id) == Some(id) && (forall|j: int|
            i < j < rows.len() ==> opt_view((#[trigger] rows[j]).account_id) != Some(id)) ==> ({
            let t = account_totals(rows, id);
            &&& t.attempts == rows[i].requests && t.unknown == rows[i].unknown_requests
            &&& t.input_tokens == rows[i].input_tokens && t.output_tokens == rows[i].output_tokens
        }),
        (forall|j: int|
            0 <= j < rows.len() ==> opt_view((#[trigger] rows[j]).account_id) != Some(id)) ==> ({
            let t = account_totals(rows, id);
            t.attempts == 0 && t.unknown == 0 && t.input_tokens == 0 && t.output_tokens == 0
        }),
    decreases rows.len(),
{
    if rows.len() > 0 {
        let h = rows.drop_last();
        law_account_totals_are_those_of_its_row(h, id, i);
        assert(rows[rows.len() - 1] == rows.last());
        if forall|j: int|
            0 <= j < rows.len() ==> opt_view((#[trigger] rows[j]).account_id) != Some(id) {
            assert forall|j: int| 0 <= j < h.len() implies opt_view((#[trigger] h[j]).account_id)
                != Some(id) by {
                assert(h[j] == rows[j]);
            }
        }
        if 0 <= i < h.len() && (forall|j: int|
            i < j < rows.len() ==> opt_view((#[trigger] rows[j]).account_id) != Some(id)) {
            assert forall|j: int| i < j < h.len() implies opt_view((#[trigger] h[j]).account_id)
                != Some(id) by {
                assert(h[j] == rows[j]);
            }
            assert(opt_view(rows[rows.len() - 1].account_id) != Some(id));
        }
    }
}

/// The sessions of an account are counted one by one.
pub proof fn law_sessions_are_counted(s: Seq<BindingView>, b: BindingView, id: Seq<char>)
    ensures
        sessions(Seq::empty(), id) == 0,
        b.account_id == id ==> sessions(s.push(b), id) == sessions(s, id) + 1,
        b.account_id != id ==> sessions(s.push(b), id) == sessions(s, id),
{
    assert(s.push(b).drop_last() =~= s);
}

/// An account is shown as it is: its name, backend and health, what it has in
/// flight, its sessions and its totals; and its quota where it is one of Codex.
pub proof fn law_account_is_shown_as_it_is(
    state: AccountState,
    pool: PoolView,
    rows: Seq<UsageSummary>,
    resets: ManagerView,
)
    ensures
        ({
            let x = shown(state, pool, rows, resets);
            let a = state.account;
            &&& x.id == a.id@ && x.label == a.label@ && x.backend == a.backend
            &&& x.status == a.status && x.reset_at == a.reset_at && x.inflight == state.inflight
            &&& x.sticky_sessions == sessions(pool.listed_bindings(), a.id@)
            &&& x.month == account_totals(rows, a.id@)
            &&& a.backend == BackendId::Copilot ==> x.quota is None
            &&& a.backend == BackendId::Codex && resets.snapshots.contains_key(a.id@) ==> x.quota
                == Some(resets.snapshots[a.id@])
            &&& a.backend == BackendId::Codex && !resets.snapshots.contains_key(a.id@) ==> x.quota
                is None
        }),
{
}

/// Accounts are shown in the order of their labels, those of one label in the order
/// of their ids.
pub proof fn law_accounts_are_shown_by_label(a: MonitorAccountView, b: MonitorAccountView)
    ensures
        below(a.label, b.label) ==> crate::monitor::shown_before(a, b),
        a.label == b.label && below(a.id, b.id) ==> crate::monitor::shown_before(a, b),
        crate::monitor::shown_before(a, b) && crate::monitor::shown_before(b, a) ==> false,
{
    crate::text::law_order_total(a.label, b.label);
    crate::text::law_order_total(a.id, b.id);
}

/// The models are listed in the order of their ids, each once.
pub proof fn law_models_are_listed_once(
    s: Seq<ListedView>,
    m: Map<Seq<char>, ListedView>,
    i: int,
    j: int,
    id: Seq<char>,
)
    requires
        lists(s, m),
    ensures
        0 <= i < j < s.len() ==> below(s[i].model.id, s[j].model.id),
        0 <= i < s.len() ==> m.contains_key(s[i].model.id) && m[s[i].model.id] == s[i],
        m.contains_key(id) ==> exists|k: int| 0 <= k < s.len() && #[trigger] s[k] == m[id],
{
    if m.contains_key(id) {
        assert(crate::proxy::has_model(s, id));
        let k = choose|k: int| 0 <= k < s.len() && s[k].model.id == id;
        assert(s[k] == m[id]);
    }
}

/// A query without bounds begins with the month; one with a bound stays as it is.
pub proof fn law_query_begins_with_the_month(q: UsageQuery, month_start: i64)
    ensures
        q.from_ms is None && q.to_ms is None ==> bounded(q, month_start).from_ms == Some(
            month_start,
        ) && bounded(q, month_start).to_ms is None && bounded(q, month_start).model == q.model
            && bounded(q, month_start).account_id == q.account_id && bounded(
            q,
            month_start,
        ).cache_key == q.cache_key && bounded(q, month_start).group_by == q.group_by,
        q.from_ms is Some || q.to_ms is Some ==> bounded(q, month_start) == q,
{
}

/// Each piece is empty or names what usage can be grouped by.
pub open spec fn names_dimensions(pieces: Seq<Seq<char>>) -> bool {
    forall|i: int|
        0 <= i < pieces.len() ==> (#[trigger] pieces[i]).len() == 0 || pieces[i] == "model"@
            || pieces[i] == "account_id"@ || pieces[i] == "cache_key"@
}

/// A query is refused if it ends before it begins, if it groups by something else
/// than a model, an account or a session, or if it asks for a session and for
/// none; and only then.
pub proof fn law_query_is_refused_for_a_reason(q: UsageQuery, month_start: i64)
    ensures
        ({
            let backwards = q.from_ms is Some && q.to_ms is Some && q.from_ms->0 >= q.to_ms->0;
            let known = names_dimensions(
                match q.group_by {
                    Some(s) => split_of(s@, ','),
                    None => split_of(""@, ','),
                },
            );
            let both = q.cache_key is Some && q.missing_key == Some(true);
            let fault = query_fault(q, month_start);
            &&& fault is None <==> !backwards && known && !both
            &&& backwards ==> fault == Some("from_ms must precede to_ms"@)
            &&& !backwards && !known ==> fault == Some("invalid group_by"@)
            &&& !backwards && known && both ==> fault == Some(
                "cache_key conflicts with missing_key"@,
            )
        }),
{
    let pieces = split_of(q.grouping(), ',');
    assert(names_dimensions(pieces) <==> groups_known(q.grouping())) by {
        if groups_known(q.grouping()) {
            assert forall|i: int| 0 <= i < pieces.len() implies (#[trigger] pieces[i]).len() == 0
                || pieces[i] == "model"@ || pieces[i] == "account_id"@ || pieces[i]
                == "cache_key"@ by {
                assert(is_dimension(split_of(q.grouping(), ',')[i]));
            }
        }
        if names_dimensions(pieces) {
            assert forall|i: int| 0 <= i < split_of(q.grouping(), ',').len() implies is_dimension(
                #[trigger] split_of(q.grouping(), ',')[i],
            ) by {
                assert(pieces[i].len() == 0 || is_dimension(pieces[i]));
            }
        }
    }
}

/// The row that is selected is the wanted one where it exists, else the nearest.
pub proof fn law_wanted_row_is_selected(wanted: int, count: int)
    requires
        count >= 0,
    ensures
        0 <= wanted < count ==> nearest_row(wanted, count) == wanted,
        wanted >= count && count > 0 ==> nearest_row(wanted, count) == count - 1,
        wanted < 0 || count == 0 ==> nearest_row(wanted, count) == 0,
{
}

/// A time is shown in hours and minutes, below an hour in minutes, below a minute in
/// seconds; one that is over is shown as none.
pub proof fn law_times_are_shown_in_their_unit(h: int, m: int, s: int, ms: int)
    requires
        0 <= m < 60,
        0 <= s < 60,
        0 <= ms < 1000,
        h >= 0,
    ensures
        h > 0 ==> span_text(3600 * h + 60 * m + s) == dec(h) + "h"@ + (dec(m) + "m"@),
        m > 0 ==> span_text(60 * m + s) == dec(m) + "m"@,
        span_text(s) == dec(s) + "s"@,
        whole_seconds(1000 * s + ms) == s,
        whole_seconds(-ms) == 0,
{
    assert((3600 * h + 60 * m + s) / 3600 == h) by (nonlinear_arith)
        requires
            0 <= m < 60,
            0 <= s < 60,
            h >= 0,
    ;
    assert((3600 * h + 60 * m + s) % 3600 == 60 * m + s) by (nonlinear_arith)
        requires
            0 <= m < 60,
            0 <= s < 60,
            h >= 0,
    ;
}

/// A quota is shown as known only for Codex, where it was read within the last three
/// minutes: red where upstream blocks it or from 90 percent on, yellow from 70
/// percent on, else green, by the window that is used most.
pub proof fn law_quota_is_coloured_by_its_use(
    a: MonitorAccountView,
    s: SnapshotView,
    l: RateLimit,
    now: int,
)
    requires
        a.quota == Some(s),
        s.rate_limit == Some(l),
        0 <= now - s.fetched_at_ms <= i64::MAX,
    ensures
        ({
            let t = quota_tone(a, now);
            let fresh = a.backend == BackendId::Codex && now - s.fetched_at_ms <= 180_000;
            let blocked = l.allowed == Some(false) || l.limit_reached == Some(true);
            let known = l.primary_window is Some || l.secondary_window is Some;
            let at_least = |p: int|
                l.primary_window is Some && l.primary_window->0.used_percent >= p
                    || l.secondary_window is Some && l.secondary_window->0.used_percent >= p;
            &&& !fresh ==> t == Tone::Muted
            &&& fresh && blocked ==> t == Tone::Red
            &&& fresh && !blocked && !known ==> t == Tone::Muted
            &&& fresh && !blocked && at_least(90) ==> t == Tone::Red
            &&& fresh && !blocked && at_least(70) && !at_least(90) ==> t == Tone::Yellow
            &&& fresh && !blocked && known && !at_least(70) ==> t == Tone::Green
        }),
{
}

/// The requests in flight are those of all accounts, and the healthy accounts are
/// counted one by one.
pub proof fn law_accounts_are_counted(s: Seq<MonitorAccount>, a: MonitorAccount)
    ensures
        all_inflight(Seq::empty()) == 0,
        all_inflight(s.push(a)) == all_inflight(s) + a.inflight,
        healthy_of(Seq::empty()) == 0,
        a.status == AccountStatus::Healthy ==> healthy_of(s.push(a)) == healthy_of(s) + 1,
        a.status != AccountStatus::Healthy ==> healthy_of(s.push(a)) == healthy_of(s),
{
    assert(s.push(a).drop_last() =~= s);
}

/// For a server that is named the admin token is that of the environment, and no
/// other; for the own server it is the configured one, else the stored one. An
/// empty one is none.
pub proof fn law_admin_token_fits_the_server(
    env: Option<Seq<char>>,
    configured: Option<Seq<char>>,
    stored: Option<Seq<char>>,
)
    ensures
        env is Some && env->0.len() > 0 ==> token_of(true, env, configured, stored) == env,
        env is None || env->0.len() == 0 ==> token_of(true, env, configured, stored) is None,
        configured is Some && configured->0.len() > 0 ==> token_of(false, env, configured, stored)
            == configured,
        configured is None || configured->0.len() == 0 ==> token_of(false, env, configured, stored)
            == stored,
{
}

/// A server is named by an origin: HTTP or HTTPS, with a host, and without user,
/// password, path, query or fragment.
pub proof fn law_server_is_named_by_an_origin(
    p: (Seq<char>, bool, Seq<char>, bool, Seq<char>, bool, bool),
)
    ensures
        is_origin(p) <==> (p.0 == "http"@ || p.0 == "https"@) && p.1 && p.2.len() == 0 && !p.3 && (
        p.4.len() == 0 || p.4 == "/"@) && !p.5 && !p.6,
{
}

/// An account that is enabled is healthy, but for one that cools, which goes on
/// cooling to the same time.
pub proof fn law_enabled_account_goes_on_cooling(status: AccountStatus, reset_at: i64)
    ensures
        enabled(status, reset_at).0 == (if status == AccountStatus::Cooling {
            AccountStatus::Cooling
        } else {
            AccountStatus::Healthy
        }),
        enabled(status, reset_at).1 == (if status == AccountStatus::Cooling {
            reset_at
        } else {
            0i64
        }),
{
}

/// A line of the history is shown with its time, model, backend, label, status and
/// duration.
pub proof fn law_request_is_shown_as_it_was(r: MonitorRequest, e: RequestLogEntry)
    requires
        shows_request(r, e),
    ensures
        r.ts == e.ts,
        r.model == e.model,
        r.backend == e.backend,
        r.label == e.label,
        r.status == e.status,
        r.duration_ms == e.duration_ms,
{
}

/// All accounts of the pool are shown, each once, in order.
pub proof fn law_all_accounts_are_shown(
    s: Seq<MonitorAccountView>,
    pool: PoolView,
    rows: Seq<UsageSummary>,
    resets: ManagerView,
    id: Seq<char>,
    i: int,
    j: int,
)
    requires
        shows_accounts(s, pool, rows, resets),
        pool.accounts.contains_key(id) ==> pool.accounts[id].account.id@ == id,
    ensures
        s.len() == pool.accounts.dom().len(),
        pool.accounts.contains_key(id) ==> s.contains(shown(pool.accounts[id], pool, rows, resets)),
        0 <= i < s.len() ==> pool.accounts.contains_key(s[i].id) && s[i] == shown(
            pool.accounts[s[i].id],
            pool,
            rows,
            resets,
        ),
        0 <= i < j < s.len() ==> below(s[i].label, s[j].label) || s[i].label == s[j].label && below(
            s[i].id,
            s[j].id,
        ),
{
    if pool.accounts.contains_key(id) {
        let x = shown(pool.accounts[id], pool, rows, resets);
        assert(x.id == id);
        assert(s.contains(x));
    }
    if 0 <= i < s.len() {
        assert(s.contains(s[i]));
    }
}

/// What is in flight on an account that is not known is none.
pub proof fn law_unknown_account_has_nothing_in_flight(v: PoolView, id: Seq<char>)
    ensures
        v.accounts.contains_key(id) ==> inflight_of(v, id) == v.accounts[id].inflight,
        !v.accounts.contains_key(id) ==> inflight_of(v, id) == 0,
{
}

/// The state of an account in words: one that cools says for how long.
pub proof fn law_state_is_told_in_words(reset_at: i64, now: i64)
    requires
        0 <= reset_at - now <= i64::MAX,
    ensures
        status_words(AccountStatus::Healthy, reset_at, now) == "healthy"@,
        status_words(AccountStatus::AuthError, reset_at, now) == "auth error"@,
        status_words(AccountStatus::Disabled, reset_at, now) == "disabled"@,
        status_words(AccountStatus::Cooling, reset_at, now) == "cooling "@ + span_text(
            (reset_at - now) / 1000,
        ),
{
}

/// The length of a quota window is told in days from a day on, else in hours.
pub proof fn law_window_length_is_told(days: int, hours: int, rest: int)
    requires
        0 <= hours < 24,
        0 <= rest < 3600,
        0 <= days <= 1_000_000,
    ensures
        days > 0 ==> window_length(Some((86_400 * days + 3600 * hours + rest) as i64)) == dec(days)
            + "d"@,
        window_length(Some((3600 * hours + rest) as i64)) == dec(hours) + "h"@,
        window_length(None) == "?"@,
{
    assert((86_400 * days + 3600 * hours + rest) / 86_400 == days);
    assert((3600 * hours + rest) / 3_600 == hours);
}

/// The quota of Copilot is not known; that of Codex is awaited until it is read, and
/// what is left of each window is told once it is. Old news is marked as such.
pub proof fn law_quota_is_told_by_what_is_left(
    a: MonitorAccountView,
    s: SnapshotView,
    l: RateLimit,
    w: Window,
    texts: QuotaText,
    now: int,
)
    requires
        0 <= now - s.fetched_at_ms <= i64::MAX,
    ensures
        a.backend == BackendId::Copilot ==> quota_words(a, texts, now) == "unknown"@,
        a.backend == BackendId::Codex && a.quota is None ==> quota_words(a, texts, now)
            == "waiting\u{2026}"@,
        a.backend == BackendId::Codex && a.quota == Some(s) && s.rate_limit is None ==> quota_words(
            a,
            texts,
            now,
        ) == "unavailable"@,
        a.backend == BackendId::Codex && a.quota == Some(s) && s.rate_limit == Some(l)
            && l.primary_window == Some(w) && l.secondary_window is None && texts.primary is Some
            && now - s.fetched_at_ms <= 180_000 ==> quota_words(a, texts, now) == window_length(
            w.limit_window_seconds,
        ) + " "@ + (texts.primary->0.left@ + "%"@),
        a.backend == BackendId::Codex && a.quota == Some(s) && s.rate_limit == Some(l)
            && l.primary_window == Some(w) && l.secondary_window is None && texts.primary is Some
            && now - s.fetched_at_ms > 180_000 ==> quota_words(a, texts, now) == window_length(
            w.limit_window_seconds,
        ) + " "@ + (texts.primary->0.left@ + "%"@) + " \u{b7} stale"@,
{
    let part = window_length(w.limit_window_seconds) + " "@ + (texts.primary->0.left@ + "%"@);
    if l.primary_window == Some(w) && l.secondary_window is None && texts.primary is Some {
        let parts = window_words(l.primary_window, texts.primary) + window_words(
            l.secondary_window,
            texts.secondary,
        );
        assert(parts =~= seq![part]);
    }
}

/// The server that is asked is the named one, without a slash at its end; else the
/// one at the configured address, over HTTP, at this machine where that address
/// is that of every interface.
pub proof fn law_server_is_named_or_configured(u: Seq<char>, bind: Seq<char>)
    requires
        u.len() > 0,
        u.last() != '/',
        forall|i: int| 0 <= i <= bind.len() ==> !has_prefix(#[trigger] bind.skip(i), "0.0.0.0"@),
        forall|i: int| 0 <= i <= bind.len() ==> !has_prefix(#[trigger] bind.skip(i), "[::]"@),
    ensures
        url_of(Some(u), bind) == u,
        url_of(Some(u.push('/')), bind) == u,
        url_of(None, bind) == "http://"@ + bind,
        replaced("0.0.0.0"@ + bind, "0.0.0.0"@, "127.0.0.1"@) == "127.0.0.1"@ + bind,
        replaced("[::]"@ + bind, "[::]"@, "[::1]"@) == "[::1]"@ + bind,
{
    reveal_strlit("0.0.0.0");
    reveal_strlit("[::]");
    law_word_is_replaced(bind, "0.0.0.0"@, "127.0.0.1"@);
    law_word_is_replaced(bind, "[::]"@, "[::1]"@);
    reveal_with_fuel(crate::text::trim_end_of, 2);
    assert(u.push('/').drop_last() =~= u);
}

/// The seconds of a cooldown are refused where their milliseconds cannot be told.
pub proof fn law_cooldown_must_be_tellable(file: FileConfig)
    ensures
        file.fits() <==> (file.codex_cooldown_secs matches Some(s) ==> s
            <= 18_446_744_073_709_551) && (file.copilot_cooldown_secs matches Some(s) ==> s
            <= 18_446_744_073_709_551),
{
}

/// A statement says what it says, with the values in their places.
pub proof fn law_statement_has_its_values(s: Statement, sql: Seq<char>, values: Seq<SqlView>, i: int)
    requires
        s.says(sql, values),
        0 <= i < values.len(),
    ensures
        s.sql@ == sql,
        s.values@.len() == values.len(),
        s.values@[i]@ == values[i],
{
    assert(crate::store::sql_views(s.values@)[i] == s.values@[i]@);
}

/// What is not known is stored as missing, and what is known as it is.
pub proof fn law_missing_values_are_stored_as_missing(t: Seq<char>, n: i64)
    ensures
        text_cell(t) == SqlView::Text(t),
        opt_text_cell(Some(t)) == SqlView::Text(t),
        opt_text_cell(None) == SqlView::Null,
        opt_number_cell(Some(n)) == SqlView::Integer(n as int),
        opt_number_cell(None) == SqlView::Null,
{
}

/// The record of usage is stored in the order of its columns.
pub proof fn law_record_is_stored_by_column(r: RecordView)
    ensures
        record_cells(r).len() == 11,
        record_cells(r)[0] == SqlView::Text(r.request_id),
        record_cells(r)[1] == SqlView::Integer(r.ts),
        record_cells(r)[2] == SqlView::Text(r.endpoint),
        record_cells(r)[3] == SqlView::Text(r.backend),
        record_cells(r)[4] == SqlView::Text(r.model),
        record_cells(r)[5] == SqlView::Text(r.account_id),
        record_cells(r)[6] == SqlView::Text(r.account_label),
        r.cache_key is Some ==> record_cells(r)[7] == SqlView::Text(r.cache_key->0),
        r.cache_key is None ==> record_cells(r)[7] == SqlView::Null,
        record_cells(r)[8] == SqlView::Integer(r.status as int),
        r.input_tokens is Some ==> record_cells(r)[9] == SqlView::Integer(
            r.input_tokens->0 as int,
        ),
        r.output_tokens is Some ==> record_cells(r)[10] == SqlView::Integer(
            r.output_tokens->0 as int,
        ),
{
}

/// A stored account has its id, backend and health, and its tokens, in the order of
/// its columns; a token update has what it changes.
pub proof fn law_account_is_stored_by_column(a: Account, u: TokenUpdate, now: int)
    ensures
        account_cells(a).len() == 14,
        account_cells(a)[0] == SqlView::Text(a.id@),
        account_cells(a)[1] == SqlView::Text(a.backend.name()),
        account_cells(a)[2] == SqlView::Text(a.label@),
        a.refresh_token is Some ==> account_cells(a)[3] == SqlView::Text(a.refresh_token->0@),
        a.access_token is Some ==> account_cells(a)[4] == SqlView::Text(a.access_token->0@),
        account_cells(a)[5] == SqlView::Integer(a.expires_at as int),
        a.account_id is Some ==> account_cells(a)[6] == SqlView::Text(a.account_id->0@),
        a.residency is Some ==> account_cells(a)[7] == SqlView::Text(a.residency->0@),
        a.enterprise_url is Some ==> account_cells(a)[8] == SqlView::Text(a.enterprise_url->0@),
        account_cells(a)[9] == SqlView::Text(status_name(a.status)),
        account_cells(a)[10] == SqlView::Integer(a.reset_at as int),
        account_cells(a)[11] == SqlView::Integer(a.created_at as int),
        account_cells(a)[12] == SqlView::Integer(a.updated_at as int),
        account_cells(a)[13] == SqlView::Integer(a.token_refreshed_at as int),
        token_cells(a.id@, u, now)[0] == SqlView::Text(a.id@),
        u.refresh_token is Some ==> token_cells(a.id@, u, now)[1] == SqlView::Text(
            u.refresh_token->0@,
        ),
        u.access_token is Some ==> token_cells(a.id@, u, now)[2] == SqlView::Text(
            u.access_token->0@,
        ),
        token_cells(a.id@, u, now)[3] == SqlView::Integer(u.expires_at as int),
        u.account_id is Some ==> token_cells(a.id@, u, now)[4] == SqlView::Text(u.account_id->0@),
        u.residency is Some ==> token_cells(a.id@, u, now)[5] == SqlView::Text(u.residency->0@),
        token_cells(a.id@, u, now)[6] == SqlView::Integer(now),
{
}

/// An id is cut to its first eight bytes in the log; a short one stays.
pub proof fn law_logged_id_is_short(r: Seq<char>, id: Seq<char>)
    requires
        is_cut(r, id),
    ensures
        encode_utf8(r).len() <= 8,
        encode_utf8(r).is_prefix_of(encode_utf8(id)),
        encode_utf8(id).len() <= 8 ==> r == id,
        encode_utf8(id).len() > 8 ==> encode_utf8(r).len() == 8,
{
}

/// How an account was selected is logged by name, and an account without a label as
/// unknown.
pub proof fn law_decisions_are_logged_by_name(label: &str)
    ensures
        decision_name(Decision::StickyHit) == "StickyHit"@,
        decision_name(Decision::StickyRebind) == "StickyRebind"@,
        decision_name(Decision::NewBinding) == "NewBinding"@,
        decision_name(Decision::Unsticky) == "Unsticky"@,
        shown_label(Some(label)) == label@,
        shown_label(None) == "unknown"@,
{
}

/// The limits of what is kept, taken and shown.
pub proof fn law_limits()
    ensures
        MAX_BODY_BYTES == 64 * 1024 * 1024,
        RECENT_REQUESTS == 20,
        DEFAULT_BINDING_CAP == 10_000,
{
}

/// A summary has the rows that meet all conditions of its query. Where it is
/// grouped it has one row for each group, and is read by the page; where it is not,
/// it is one row.
pub proof fn law_summary_has_one_row_for_each_group(q: UsageQuery)
    ensures
        ({
            let filters = joined(q.conditions(), " AND "@);
            let order = " ORDER BY input_tokens DESC,model,account_id,cache_key"@;
            let label = if q.groups_by("account_id"@) {
                "MAX(account_label) AS account_label"@
            } else {
                "NULL AS account_label"@
            };
            let head = "SELECT "@ + q.column("model"@) + ","@ + q.column("account_id"@) + ","@ + label
                + ","@ + q.column("cache_key"@) + SUMMARY_COLUMNS@;
            &&& q.groups().len() == 0 ==> q.summary_text() == head + filters + order
            &&& q.groups().len() > 0 ==> q.summary_text() == head + filters + (" GROUP BY "@
                + joined(q.groups(), ","@)) + order + " LIMIT ? OFFSET ?"@
        }),
{
    reveal_strlit("");
    let filters = joined(q.conditions(), " AND "@);
    let order = " ORDER BY input_tokens DESC,model,account_id,cache_key"@;
    let label = if q.groups_by("account_id"@) {
        "MAX(account_label) AS account_label"@
    } else {
        "NULL AS account_label"@
    };
    let head = "SELECT "@ + q.column("model"@) + ","@ + q.column("account_id"@) + ","@ + label
        + ","@ + q.column("cache_key"@) + SUMMARY_COLUMNS@;
    if q.groups().len() == 0 {
        assert(""@ =~= Seq::<char>::empty());
        assert(q.summary_text() =~= head + filters + order);
    }
}

/// A window of quota is told with what is used and left of it, and with the time
/// until it renews, where that is known.
pub proof fn law_window_is_told_in_detail(
    name: Seq<char>,
    w: Window,
    text: PercentText,
    now: i64,
    secs: i64,
)
    requires
        0 <= now <= secs * 1000 <= i64::MAX,
    ensures
        ({
            let used = name + " "@ + (text.used@ + "% used / "@ + (text.left@ + "% left \u{b7} "@
                + (if w.reset_at == Some(secs) {
                "renews in "@ + span_text((secs * 1000 - now) / 1000)
            } else {
                "reset unknown"@
            })));
            &&& w.reset_at == Some(secs) || w.reset_at is None ==> window_detail(
                name,
                Some(w),
                Some(text),
                now as int,
            ) == seq![used]
            &&& window_detail(name, None, Some(text), now as int).len() == 0
            &&& window_detail(name, Some(w), None, now as int).len() == 0
        }),
{
}

} // verus!
