//! The refresh scheduler's decisions: when an access token must be renewed,
//! which users a pass renews, how a renewal's result is written back
//! (including refresh-token rotation), and how long to sleep between passes.
//!
//! The surrounding loop performs the partner calls and the sleeps; every
//! decision it acts on is taken here.

use vstd::prelude::*;
use crate::store::{
    find_token, upsert_token_model, OAuth2Tokentype, StoreModel, TokenRowModel, TokenStore, User,
    lemma_upsert_find, lemma_upsert_frame, Error,
};
use crate::exchange::{TokenError, TokenPair};

verus! {

/// Seconds to sleep after a pass in which every renewal succeeded.
pub const JOB_INTERVAL_SEC: u64 = 15;

/// Seconds to sleep after a failed pass: a deliberate fast retry.
pub const JOB_FAIL_INTERVAL_SEC: u64 = 5;

/// Why a refresh pass was aborted.
pub enum RefreshError {
    /// The store reported an error.
    Dal(Error),
    /// The partner exchange failed.
    Token(TokenError),
}

/// Whether an access token expiring at `expiry` must be renewed at `now`:
/// it has already expired, or expires within 29 seconds. The partner accepts
/// a refresh only within roughly the last 30 seconds of validity; the one
/// second difference is a buffer against clock and latency skew.
pub open spec fn spec_needs_refresh(expiry: int, now: int) -> bool {
    now >= expiry || expiry - now < 29
}

/// Decide whether an access token must be renewed now.
pub fn needs_refresh(expiry: i64, now: i64) -> (r: bool)
    ensures
        r == spec_needs_refresh(expiry as int, now as int),
{
    if now >= expiry {
        true
    } else {
        match expiry.checked_sub(now) {
            Some(d) => d < 29,
            None => false,
        }
    }
}

/// One renewal a pass must perform: the user and the refresh token to send.
pub struct RefreshStep {
    pub user_id: String,
    pub refresh_token: String,
}

/// Model of one renewal step.
#[verifier::ext_equal]
pub struct RefreshStepModel {
    pub user: Seq<char>,
    pub refresh_token: Seq<char>,
}

impl View for RefreshStep {
    type V = RefreshStepModel;

    open spec fn view(&self) -> RefreshStepModel {
        RefreshStepModel { user: self.user_id@, refresh_token: self.refresh_token@ }
    }
}

/// Whether a user's access token must be renewed: the user owns both tokens
/// (else login has not completed and the user is skipped) and the access
/// token expires too soon.
pub open spec fn spec_user_needs_renewal(m: StoreModel, user: Seq<char>, now: int) -> bool {
    &&& find_token(m.tokens, user, OAuth2Tokentype::Access) is Some
    &&& find_token(m.tokens, user, OAuth2Tokentype::Refresh) is Some
    &&& spec_needs_refresh(find_token(m.tokens, user, OAuth2Tokentype::Access).unwrap().expiry, now)
}

/// The renewals one pass over the given users performs, in user-list order.
pub open spec fn spec_refresh_plan(m: StoreModel, users: Seq<Seq<char>>, now: int) -> Seq<
    RefreshStepModel,
>
    decreases users.len(),
{
    if users.len() == 0 {
        Seq::empty()
    } else {
        let rest = spec_refresh_plan(m, users.drop_first(), now);
        if spec_user_needs_renewal(m, users[0], now) {
            seq![
                RefreshStepModel {
                    user: users[0],
                    refresh_token: find_token(
                        m.tokens,
                        users[0],
                        OAuth2Tokentype::Refresh,
                    ).unwrap().token,
                },
            ] + rest
        } else {
            rest
        }
    }
}

/// Extending the scanned users by one extends the plan at its end.
proof fn lemma_refresh_plan_push(m: StoreModel, users: Seq<Seq<char>>, now: int, u: Seq<char>)
    ensures
        spec_refresh_plan(m, users.push(u), now) == spec_refresh_plan(m, users, now) + (
        if spec_user_needs_renewal(m, u, now) {
            seq![
                RefreshStepModel {
                    user: u,
                    refresh_token: find_token(m.tokens, u, OAuth2Tokentype::Refresh).unwrap().token,
                },
            ]
        } else {
            Seq::empty()
        }),
    decreases users.len(),
{
    if users.len() == 0 {
        assert(users.push(u)[0] == u);
        assert(users.push(u).drop_first() =~= Seq::<Seq<char>>::empty());
        assert(users =~= Seq::<Seq<char>>::empty());
        assert(spec_refresh_plan(m, Seq::<Seq<char>>::empty(), now) =~= Seq::<
            RefreshStepModel,
        >::empty());
        if spec_user_needs_renewal(m, u, now) {
            assert(spec_refresh_plan(m, users.push(u), now) =~= spec_refresh_plan(m, users, now)
                + seq![
                RefreshStepModel {
                    user: u,
                    refresh_token: find_token(m.tokens, u, OAuth2Tokentype::Refresh).unwrap().token,
                },
            ]);
        } else {
            assert(spec_refresh_plan(m, users.push(u), now) =~= spec_refresh_plan(m, users, now));
        }
    } else {
        assert(users.push(u)[0] == users[0]);
        assert(users.push(u).drop_first() =~= users.drop_first().push(u));
        lemma_refresh_plan_push(m, users.drop_first(), now, u);
        assert(spec_refresh_plan(m, users.push(u), now) =~= spec_refresh_plan(m, users, now) + (
        if spec_user_needs_renewal(m, u, now) {
            seq![
                RefreshStepModel {
                    user: u,
                    refresh_token: find_token(m.tokens, u, OAuth2Tokentype::Refresh).unwrap().token,
                },
            ]
        } else {
            Seq::empty()
        }));
    }
}

/// The plan is sound and complete: every planned step belongs to a listed
/// user that owns both tokens and whose access token expires too soon, and
/// carries that user's stored refresh token; and every listed user in that
/// situation has a step in the plan.
pub proof fn lemma_refresh_plan_characterizes(m: StoreModel, users: Seq<Seq<char>>, now: int)
    ensures
        forall|j: int|
            0 <= j < spec_refresh_plan(m, users, now).len() ==> ({
                let step = #[trigger] spec_refresh_plan(m, users, now)[j];
                &&& users.contains(step.user)
                &&& spec_user_needs_renewal(m, step.user, now)
                &&& step.refresh_token == find_token(
                    m.tokens,
                    step.user,
                    OAuth2Tokentype::Refresh,
                ).unwrap().token
            }),
        forall|k: int|
            0 <= k < users.len() && spec_user_needs_renewal(m, #[trigger] users[k], now)
                ==> exists|j: int|
                0 <= j < spec_refresh_plan(m, users, now).len() && spec_refresh_plan(
                    m,
                    users,
                    now,
                )[j].user == users[k],
    decreases users.len(),
{
    if users.len() > 0 {
        let tail = users.drop_first();
        let plan = spec_refresh_plan(m, users, now);
        let rest = spec_refresh_plan(m, tail, now);
        let lead: int = if spec_user_needs_renewal(m, users[0], now) {
            1
        } else {
            0
        };
        lemma_refresh_plan_characterizes(m, tail, now);
        assert(forall|k: int| 0 <= k < tail.len() ==> tail[k] == users[k + 1]);
        assert forall|j: int| 0 <= j < plan.len() implies ({
            let step = #[trigger] plan[j];
            &&& users.contains(step.user)
            &&& spec_user_needs_renewal(m, step.user, now)
            &&& step.refresh_token == find_token(
                m.tokens,
                step.user,
                OAuth2Tokentype::Refresh,
            ).unwrap().token
        }) by {
            if j < lead {
                assert(plan[j].user == users[0]);
            } else {
                assert(plan[j] == rest[j - lead]);
                let step = rest[j - lead];
                assert(tail.contains(step.user));
                let k = choose|k: int| 0 <= k < tail.len() && tail[k] == step.user;
                assert(users[k + 1] == step.user);
            }
        }
        assert forall|k: int|
            0 <= k < users.len() && spec_user_needs_renewal(m, #[trigger] users[k], now) implies exists|j: int|
            0 <= j < plan.len() && plan[j].user == users[k] by {
            if k == 0 {
                assert(plan[0].user == users[0]);
            } else {
                assert(tail[k - 1] == users[k]);
                let j = choose|j: int| 0 <= j < rest.len() && rest[j].user == tail[k - 1];
                assert(plan[j + lead].user == users[k]);
            }
        }
    }
}

/// Scan all users and collect, in user-list order, the renewals this pass
/// must perform: each user that owns both tokens and whose access token
/// expires too soon, with the refresh token to send for it.
pub fn refresh_candidates(store: &TokenStore, now: i64) -> (r: Vec<RefreshStep>)
    ensures
        r@.map_values(|s: RefreshStep| s@) == spec_refresh_plan(store@, store@.users, now as int),
{
    let users = store.list_all();
    let mut r: Vec<RefreshStep> = Vec::new();
    let n = users.len();
    let mut i: usize = 0;
    proof {
        assert(store@.users.take(0) =~= Seq::<Seq<char>>::empty());
        assert(r@.map_values(|s: RefreshStep| s@) =~= spec_refresh_plan(
            store@,
            store@.users.take(0),
            now as int,
        ));
    }
    while i < n
        invariant
            n == users@.len(),
            users@.len() == store@.users.len(),
            forall|k: int| 0 <= k < n ==> (#[trigger] users@[k]).id@ == store@.users[k],
            0 <= i <= n,
            r@.map_values(|s: RefreshStep| s@) == spec_refresh_plan(
                store@,
                store@.users.take(i as int),
                now as int,
            ),
        decreases n - i,
    {
        let user = &users[i];
        let ghost prefix = store@.users.take(i as int);
        proof {
            assert(store@.users.take(i + 1) =~= prefix.push(store@.users[i as int]));
            lemma_refresh_plan_push(store@, prefix, now as int, store@.users[i as int]);
        }
        let access = store.get_access_token(user);
        let refresh = store.get_refresh_token(user);
        match (access, refresh) {
            (Some(access), Some(refresh)) => {
                if needs_refresh(access.expiry, now) {
                    r.push(
                        RefreshStep { user_id: user.id.clone(), refresh_token: refresh.token },
                    );
                    proof {
                        assert(r@.map_values(|s: RefreshStep| s@) =~= spec_refresh_plan(
                            store@,
                            store@.users.take(i + 1),
                            now as int,
                        ));
                    }
                } else {
                    proof {
                        assert(r@.map_values(|s: RefreshStep| s@) =~= spec_refresh_plan(
                            store@,
                            store@.users.take(i + 1),
                            now as int,
                        ));
                    }
                }
            },
            _ => {
                proof {
                    assert(r@.map_values(|s: RefreshStep| s@) =~= spec_refresh_plan(
                        store@,
                        store@.users.take(i + 1),
                        now as int,
                    ));
                }
            },
        }
        i += 1;
    }
    proof {
        assert(store@.users.take(n as int) =~= store@.users);
    }
    r
}

/// Write one renewal's outcome back: always persist the new access token; if
/// the partner rotated the refresh token (returned one different from the one
/// sent), persist the new refresh token too, else leave the stored refresh
/// row untouched.
pub fn apply_refresh_result(store: &mut TokenStore, user: &User, sent_refresh: &str, pair: &TokenPair)
    requires
        old(store).wf(),
        old(store)@.users.contains(user.id@),
    ensures
        final(store).wf(),
        pair.refresh@ != sent_refresh@ ==> final(store)@ == upsert_token_model(
            upsert_token_model(
                old(store)@,
                user.id@,
                OAuth2Tokentype::Refresh,
                pair.refresh@,
                pair.refresh_expiry as int,
            ),
            user.id@,
            OAuth2Tokentype::Access,
            pair.access@,
            pair.access_expiry as int,
        ),
        pair.refresh@ == sent_refresh@ ==> final(store)@ == upsert_token_model(
            old(store)@,
            user.id@,
            OAuth2Tokentype::Access,
            pair.access@,
            pair.access_expiry as int,
        ),
        find_token(final(store)@.tokens, user.id@, OAuth2Tokentype::Access) == Some(
            TokenRowModel {
                user: user.id@,
                kind: OAuth2Tokentype::Access,
                token: pair.access@,
                expiry: pair.access_expiry as int,
            },
        ),
        pair.refresh@ == sent_refresh@ ==> find_token(
            final(store)@.tokens,
            user.id@,
            OAuth2Tokentype::Refresh,
        ) == find_token(old(store)@.tokens, user.id@, OAuth2Tokentype::Refresh),
        pair.refresh@ != sent_refresh@ ==> find_token(
            final(store)@.tokens,
            user.id@,
            OAuth2Tokentype::Refresh,
        ) == Some(
            TokenRowModel {
                user: user.id@,
                kind: OAuth2Tokentype::Refresh,
                token: pair.refresh@,
                expiry: pair.refresh_expiry as int,
            },
        ),
{
    let sent = sent_refresh.to_owned();
    let rotated = !pair.refresh.eq(&sent);
    if rotated {
        store.set_refresh_token(user, pair.refresh.as_str(), pair.refresh_expiry);
    }
    let ghost m1 = store@;
    store.set_access_token(user, pair.access.as_str(), pair.access_expiry);
    proof {
        lemma_upsert_find(
            m1,
            user.id@,
            OAuth2Tokentype::Access,
            pair.access@,
            pair.access_expiry as int,
        );
        lemma_upsert_frame(
            m1,
            user.id@,
            OAuth2Tokentype::Access,
            pair.access@,
            pair.access_expiry as int,
            user.id@,
            OAuth2Tokentype::Refresh,
        );
        if rotated {
            lemma_upsert_find(
                old(store)@,
                user.id@,
                OAuth2Tokentype::Refresh,
                pair.refresh@,
                pair.refresh_expiry as int,
            );
        }
    }
}

/// How long the loop sleeps before the next pass: the regular interval after
/// a clean pass, the shorter retry interval after a failure.
pub fn next_interval_sec(success: bool) -> (r: u64)
    ensures
        r == if success {
            JOB_INTERVAL_SEC as int
        } else {
            JOB_FAIL_INTERVAL_SEC as int
        },
{
    if success {
        JOB_INTERVAL_SEC
    } else {
        JOB_FAIL_INTERVAL_SEC
    }
}

} // verus!
