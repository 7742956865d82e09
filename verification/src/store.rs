//! The token store: a durable mapping from user to at most one access token
//! and one refresh token, and from an in-flight authorization attempt to its
//! originating user, caller and scope.
//!
//! The store is modelled as three relations (users, authorization starts,
//! token rows), with upsert semantics on the token rows: at most one row per
//! user and token kind.

use vstd::prelude::*;
use rand::Rng;
use crate::clock::unix_now;

verus! {

/// The kind of a stored OAuth2 token.
#[derive(Clone, Copy, PartialEq, Eq, Structural, Debug)]
pub enum OAuth2Tokentype {
    Access,
    Refresh,
}

impl OAuth2Tokentype {
    /// The persisted discriminator for this token kind. The strings are a
    /// durable on-disk contract shared with the backing store's schema.
    pub fn get_token_type_string(&self) -> (r: &'static str)
        ensures
            self is Access ==> r@ == "Access"@,
            self is Refresh ==> r@ == "Refresh"@,
    {
        match self {
            Self::Access => "Access",
            Self::Refresh => "Refresh",
        }
    }
}

/// A stored OAuth2 token: the opaque partner-issued string and its absolute
/// expiry in unix seconds.
pub struct OAuth2Token {
    pub token: String,
    pub expiry: i64,
    pub token_type: OAuth2Tokentype,
}

/// A user known to the store, named by its identity-provider id.
#[derive(Clone)]
pub struct User {
    pub id: String,
}

/// A pending authorization attempt: the opaque `state` identifier, the owning
/// user, the creation time, the caller to return to, and the requested scopes.
pub struct AuthorizationStart {
    pub id: String,
    pub user: User,
    pub timestamp: i64,
    pub caller: String,
    pub exact_scopes: String,
}

// One row of the authorization-start relation.
struct StartRow {
    id: String,
    user_id: String,
    timestamp: i64,
    caller: String,
    scopes: String,
}

// One row of the token relation.
struct TokenRow {
    user_id: String,
    token: String,
    expiry: i64,
    token_type: OAuth2Tokentype,
}

/// Mathematical model of one authorization-start row.
#[verifier::ext_equal]
pub struct StartRowModel {
    pub id: Seq<char>,
    pub user: Seq<char>,
    pub timestamp: int,
    pub caller: Seq<char>,
    pub scopes: Seq<char>,
}

/// Mathematical model of one token row.
#[verifier::ext_equal]
pub struct TokenRowModel {
    pub user: Seq<char>,
    pub kind: OAuth2Tokentype,
    pub token: Seq<char>,
    pub expiry: int,
}

/// Mathematical model of the whole store: the three relations.
#[verifier::ext_equal]
pub struct StoreModel {
    pub users: Seq<Seq<char>>,
    pub starts: Seq<StartRowModel>,
    pub tokens: Seq<TokenRowModel>,
}

impl View for StartRow {
    type V = StartRowModel;

    closed spec fn view(&self) -> StartRowModel {
        StartRowModel {
            id: self.id@,
            user: self.user_id@,
            timestamp: self.timestamp as int,
            caller: self.caller@,
            scopes: self.scopes@,
        }
    }
}

impl View for TokenRow {
    type V = TokenRowModel;

    closed spec fn view(&self) -> TokenRowModel {
        TokenRowModel {
            user: self.user_id@,
            kind: self.token_type,
            token: self.token@,
            expiry: self.expiry as int,
        }
    }
}

/// The first authorization-start row with the given id, if any.
pub open spec fn find_start(starts: Seq<StartRowModel>, id: Seq<char>) -> Option<StartRowModel>
    decreases starts.len(),
{
    if starts.len() == 0 {
        None
    } else if starts[0].id == id {
        Some(starts[0])
    } else {
        find_start(starts.drop_first(), id)
    }
}

/// Whether a token row is keyed by the given user and kind.
pub open spec fn token_row_matches(r: TokenRowModel, user: Seq<char>, kind: OAuth2Tokentype) -> bool {
    r.user == user && r.kind == kind
}

/// The first token row for the given user and kind, if any.
pub open spec fn find_token(tokens: Seq<TokenRowModel>, user: Seq<char>, kind: OAuth2Tokentype) -> Option<TokenRowModel>
    decreases tokens.len(),
{
    if tokens.len() == 0 {
        None
    } else if token_row_matches(tokens[0], user, kind) {
        Some(tokens[0])
    } else {
        find_token(tokens.drop_first(), user, kind)
    }
}

/// How many token rows the given user and kind own.
pub open spec fn count_tokens(tokens: Seq<TokenRowModel>, user: Seq<char>, kind: OAuth2Tokentype) -> nat
    decreases tokens.len(),
{
    if tokens.len() == 0 {
        0
    } else {
        (if token_row_matches(tokens[0], user, kind) {
            1nat
        } else {
            0nat
        }) + count_tokens(tokens.drop_first(), user, kind)
    }
}

/// Well-formedness of the store: user ids are unique, authorization-start ids
/// are unique, token rows are keyed uniquely by user and kind, and every
/// start and token row points at an existing user.
pub open spec fn store_wf(m: StoreModel) -> bool {
    &&& forall|i: int, j: int|
        0 <= i < j < m.users.len() ==> m.users[i] != m.users[j]
    &&& forall|i: int, j: int|
        0 <= i < j < m.starts.len() ==> m.starts[i].id != m.starts[j].id
    &&& forall|i: int, j: int|
        0 <= i < j < m.tokens.len() ==> !(m.tokens[i].user == m.tokens[j].user
            && m.tokens[i].kind == m.tokens[j].kind)
    &&& forall|i: int| 0 <= i < m.starts.len() ==> m.users.contains(#[trigger] m.starts[i].user)
    &&& forall|i: int| 0 <= i < m.tokens.len() ==> m.users.contains(#[trigger] m.tokens[i].user)
}

/// Effect of creating a user on the model.
pub open spec fn create_user_model(m: StoreModel, id: Seq<char>) -> StoreModel {
    StoreModel { users: m.users.push(id), ..m }
}

/// The model after making sure a user exists: unchanged if the id is known,
/// else with the user created.
pub open spec fn spec_ensure_user(m: StoreModel, id: Seq<char>) -> StoreModel {
    if m.users.contains(id) {
        m
    } else {
        create_user_model(m, id)
    }
}

/// Effect of opening an authorization attempt on the model.
pub open spec fn add_start_model(m: StoreModel, row: StartRowModel) -> StoreModel {
    StoreModel { starts: m.starts.push(row), ..m }
}

/// Effect of the token upsert on the model: replace the row for this user and
/// kind if one exists, else append a new one.
pub open spec fn upsert_token_model(
    m: StoreModel,
    user: Seq<char>,
    kind: OAuth2Tokentype,
    token: Seq<char>,
    expiry: int,
) -> StoreModel {
    let row = TokenRowModel { user, kind, token, expiry };
    if find_token(m.tokens, user, kind) is Some {
        StoreModel {
            tokens: m.tokens.map_values(
                |r: TokenRowModel|
                    if token_row_matches(r, user, kind) {
                        row
                    } else {
                        r
                    },
            ),
            ..m
        }
    } else {
        StoreModel { tokens: m.tokens.push(row), ..m }
    }
}

/// A sequence with no row for the given user and kind counts zero such rows.
pub proof fn lemma_count_zero(tokens: Seq<TokenRowModel>, user: Seq<char>, kind: OAuth2Tokentype)
    requires
        forall|k: int| 0 <= k < tokens.len() ==> !token_row_matches(#[trigger] tokens[k], user, kind),
    ensures
        count_tokens(tokens, user, kind) == 0,
    decreases tokens.len(),
{
    if tokens.len() > 0 {
        assert(forall|k: int|
            0 <= k < tokens.drop_first().len() ==> tokens.drop_first()[k] == tokens[k + 1]);
        lemma_count_zero(tokens.drop_first(), user, kind);
    }
}

/// `find_token` returns nothing exactly when no row is keyed by the given
/// user and kind.
pub proof fn lemma_find_token_none(tokens: Seq<TokenRowModel>, user: Seq<char>, kind: OAuth2Tokentype)
    ensures
        (find_token(tokens, user, kind) is None) <==> (forall|k: int|
            0 <= k < tokens.len() ==> !token_row_matches(#[trigger] tokens[k], user, kind)),
    decreases tokens.len(),
{
    if tokens.len() > 0 {
        let tail = tokens.drop_first();
        assert(forall|k: int| 0 <= k < tail.len() ==> tail[k] == tokens[k + 1]);
        lemma_find_token_none(tail, user, kind);
        if find_token(tokens, user, kind) is None {
            assert forall|k: int| 0 <= k < tokens.len() implies !token_row_matches(
                #[trigger] tokens[k],
                user,
                kind,
            ) by {
                if k > 0 {
                    assert(!token_row_matches(tail[k - 1], user, kind));
                }
            }
        }
    }
}

/// Skipping rows that do not match leaves `find_token` unchanged.
pub proof fn lemma_find_token_skip(
    tokens: Seq<TokenRowModel>,
    user: Seq<char>,
    kind: OAuth2Tokentype,
    i: int,
)
    requires
        0 <= i <= tokens.len(),
        forall|k: int| 0 <= k < i ==> !token_row_matches(#[trigger] tokens[k], user, kind),
    ensures
        find_token(tokens, user, kind) == find_token(tokens.skip(i), user, kind),
    decreases i,
{
    if i > 0 {
        assert(forall|k: int|
            0 <= k < tokens.drop_first().len() ==> tokens.drop_first()[k] == tokens[k + 1]);
        lemma_find_token_skip(tokens.drop_first(), user, kind, i - 1);
        assert(tokens.drop_first().skip(i - 1) =~= tokens.skip(i));
    } else {
        assert(tokens.skip(0) =~= tokens);
    }
}

/// With unique keys, the row count for a key is one if a row exists, else zero.
pub proof fn lemma_count_of_find(tokens: Seq<TokenRowModel>, user: Seq<char>, kind: OAuth2Tokentype)
    requires
        forall|i: int, j: int|
            0 <= i < j < tokens.len() ==> !(tokens[i].user == tokens[j].user && tokens[i].kind
                == tokens[j].kind),
    ensures
        count_tokens(tokens, user, kind) == if find_token(tokens, user, kind) is Some {
            1nat
        } else {
            0nat
        },
    decreases tokens.len(),
{
    if tokens.len() > 0 {
        let tail = tokens.drop_first();
        assert(forall|k: int| 0 <= k < tail.len() ==> tail[k] == tokens[k + 1]);
        if token_row_matches(tokens[0], user, kind) {
            assert forall|k: int| 0 <= k < tail.len() implies !token_row_matches(
                #[trigger] tail[k],
                user,
                kind,
            ) by {
                assert(tokens[0].user == tokens[k + 1].user ==> tokens[0].kind != tokens[k
                    + 1].kind);
            }
            lemma_count_zero(tail, user, kind);
        } else {
            lemma_count_of_find(tail, user, kind);
        }
    }
}

/// Appending a row changes the count by one when the row matches, else not at all.
pub proof fn lemma_count_push(
    tokens: Seq<TokenRowModel>,
    user: Seq<char>,
    kind: OAuth2Tokentype,
    row: TokenRowModel,
)
    ensures
        count_tokens(tokens.push(row), user, kind) == count_tokens(tokens, user, kind) + (
        if token_row_matches(row, user, kind) {
            1nat
        } else {
            0nat
        }),
    decreases tokens.len(),
{
    if tokens.len() == 0 {
        assert(tokens.push(row)[0] == row);
        assert(tokens.push(row).drop_first() =~= Seq::<TokenRowModel>::empty());
        assert(count_tokens(Seq::<TokenRowModel>::empty(), user, kind) == 0);
    } else {
        assert(tokens.push(row)[0] == tokens[0]);
        assert(tokens.push(row).drop_first() =~= tokens.drop_first().push(row));
        lemma_count_push(tokens.drop_first(), user, kind, row);
    }
}

/// Replacing every row of one key by a row of that same key preserves the
/// count for that key.
pub proof fn lemma_count_after_replace(
    olds: Seq<TokenRowModel>,
    news: Seq<TokenRowModel>,
    user: Seq<char>,
    kind: OAuth2Tokentype,
    row: TokenRowModel,
)
    requires
        news.len() == olds.len(),
        token_row_matches(row, user, kind),
        forall|j: int|
            0 <= j < olds.len() ==> #[trigger] news[j] == if token_row_matches(olds[j], user, kind) {
                row
            } else {
                olds[j]
            },
    ensures
        count_tokens(news, user, kind) == count_tokens(olds, user, kind),
    decreases olds.len(),
{
    if olds.len() > 0 {
        assert(forall|k: int|
            0 <= k < olds.drop_first().len() ==> olds.drop_first()[k] == olds[k + 1]);
        assert(forall|k: int|
            0 <= k < news.drop_first().len() ==> news.drop_first()[k] == news[k + 1]);
        lemma_count_after_replace(olds.drop_first(), news.drop_first(), user, kind, row);
    }
}

/// After the upsert, the row for the written key is exactly the written one.
pub proof fn lemma_upsert_find(
    m: StoreModel,
    user: Seq<char>,
    kind: OAuth2Tokentype,
    token: Seq<char>,
    expiry: int,
)
    ensures
        find_token(upsert_token_model(m, user, kind, token, expiry).tokens, user, kind)
            == Some(TokenRowModel { user, kind, token, expiry }),
{
    let row = TokenRowModel { user, kind, token, expiry };
    if find_token(m.tokens, user, kind) is Some {
        lemma_find_replaced(m.tokens, user, kind, row);
    } else {
        lemma_find_token_none(m.tokens, user, kind);
        lemma_find_pushed(m.tokens, user, kind, row);
    }
}

proof fn lemma_find_replaced(
    tokens: Seq<TokenRowModel>,
    user: Seq<char>,
    kind: OAuth2Tokentype,
    row: TokenRowModel,
)
    requires
        token_row_matches(row, user, kind),
        find_token(tokens, user, kind) is Some,
    ensures
        find_token(
            tokens.map_values(
                |r: TokenRowModel|
                    if token_row_matches(r, user, kind) {
                        row
                    } else {
                        r
                    },
            ),
            user,
            kind,
        ) == Some(row),
    decreases tokens.len(),
{
    let f = |r: TokenRowModel|
        if token_row_matches(r, user, kind) {
            row
        } else {
            r
        };
    let news = tokens.map_values(f);
    assert(news[0] == f(tokens[0]));
    if !token_row_matches(tokens[0], user, kind) {
        assert(news.drop_first() =~= tokens.drop_first().map_values(f));
        lemma_find_replaced(tokens.drop_first(), user, kind, row);
    }
}

proof fn lemma_find_pushed(
    tokens: Seq<TokenRowModel>,
    user: Seq<char>,
    kind: OAuth2Tokentype,
    row: TokenRowModel,
)
    requires
        token_row_matches(row, user, kind),
        forall|k: int| 0 <= k < tokens.len() ==> !token_row_matches(#[trigger] tokens[k], user, kind),
    ensures
        find_token(tokens.push(row), user, kind) == Some(row),
    decreases tokens.len(),
{
    if tokens.len() == 0 {
        assert(tokens.push(row)[0] == row);
    } else {
        assert(tokens.push(row).drop_first() =~= tokens.drop_first().push(row));
        assert(forall|k: int|
            0 <= k < tokens.drop_first().len() ==> tokens.drop_first()[k] == tokens[k + 1]);
        lemma_find_pushed(tokens.drop_first(), user, kind, row);
    }
}

/// The upsert leaves the rows of every other key alone.
pub proof fn lemma_upsert_frame(
    m: StoreModel,
    user: Seq<char>,
    kind: OAuth2Tokentype,
    token: Seq<char>,
    expiry: int,
    user2: Seq<char>,
    kind2: OAuth2Tokentype,
)
    requires
        !(user2 == user && kind2 == kind),
    ensures
        find_token(upsert_token_model(m, user, kind, token, expiry).tokens, user2, kind2)
            == find_token(m.tokens, user2, kind2),
{
    let row = TokenRowModel { user, kind, token, expiry };
    if find_token(m.tokens, user, kind) is Some {
        lemma_find_frame_replaced(m.tokens, user, kind, row, user2, kind2);
    } else {
        lemma_find_frame_pushed(m.tokens, user, kind, row, user2, kind2);
    }
}

proof fn lemma_find_frame_replaced(
    tokens: Seq<TokenRowModel>,
    user: Seq<char>,
    kind: OAuth2Tokentype,
    row: TokenRowModel,
    user2: Seq<char>,
    kind2: OAuth2Tokentype,
)
    requires
        token_row_matches(row, user, kind),
        !(user2 == user && kind2 == kind),
    ensures
        find_token(
            tokens.map_values(
                |r: TokenRowModel|
                    if token_row_matches(r, user, kind) {
                        row
                    } else {
                        r
                    },
            ),
            user2,
            kind2,
        ) == find_token(tokens, user2, kind2),
    decreases tokens.len(),
{
    let f = |r: TokenRowModel|
        if token_row_matches(r, user, kind) {
            row
        } else {
            r
        };
    if tokens.len() > 0 {
        let news = tokens.map_values(f);
        assert(news[0] == f(tokens[0]));
        assert(news.drop_first() =~= tokens.drop_first().map_values(f));
        lemma_find_frame_replaced(tokens.drop_first(), user, kind, row, user2, kind2);
    }
}

proof fn lemma_find_frame_pushed(
    tokens: Seq<TokenRowModel>,
    user: Seq<char>,
    kind: OAuth2Tokentype,
    row: TokenRowModel,
    user2: Seq<char>,
    kind2: OAuth2Tokentype,
)
    requires
        token_row_matches(row, user, kind),
        !(user2 == user && kind2 == kind),
    ensures
        find_token(tokens.push(row), user2, kind2) == find_token(tokens, user2, kind2),
    decreases tokens.len(),
{
    if tokens.len() == 0 {
        assert(tokens.push(row)[0] == row);
        assert(tokens.push(row).drop_first() =~= Seq::<TokenRowModel>::empty());
    } else {
        assert(tokens.push(row).drop_first() =~= tokens.drop_first().push(row));
        lemma_find_frame_pushed(tokens.drop_first(), user, kind, row, user2, kind2);
    }
}

/// On a well-formed store the upsert leaves exactly one row for the written key.
pub proof fn lemma_upsert_count(
    m: StoreModel,
    user: Seq<char>,
    kind: OAuth2Tokentype,
    token: Seq<char>,
    expiry: int,
)
    requires
        store_wf(m),
    ensures
        count_tokens(upsert_token_model(m, user, kind, token, expiry).tokens, user, kind) == 1,
{
    let row = TokenRowModel { user, kind, token, expiry };
    lemma_count_of_find(m.tokens, user, kind);
    if find_token(m.tokens, user, kind) is Some {
        let news = upsert_token_model(m, user, kind, token, expiry).tokens;
        lemma_count_after_replace(m.tokens, news, user, kind, row);
    } else {
        lemma_count_push(m.tokens, user, kind, row);
    }
}

/// The upsert keeps the store well formed when the user exists.
pub proof fn lemma_upsert_wf(
    m: StoreModel,
    user: Seq<char>,
    kind: OAuth2Tokentype,
    token: Seq<char>,
    expiry: int,
)
    requires
        store_wf(m),
        m.users.contains(user),
    ensures
        store_wf(upsert_token_model(m, user, kind, token, expiry)),
{
    let m2 = upsert_token_model(m, user, kind, token, expiry);
    if find_token(m.tokens, user, kind) is Some {
        assert(forall|j: int|
            0 <= j < m.tokens.len() ==> (#[trigger] m2.tokens[j]).user == m.tokens[j].user
                && m2.tokens[j].kind == m.tokens[j].kind);
    } else {
        lemma_find_token_none(m.tokens, user, kind);
    }
}

/// Writing the same token twice is the same as writing it once.
pub proof fn lemma_upsert_idempotent(
    m: StoreModel,
    user: Seq<char>,
    kind: OAuth2Tokentype,
    token: Seq<char>,
    expiry: int,
)
    ensures
        upsert_token_model(upsert_token_model(m, user, kind, token, expiry), user, kind, token, expiry)
            == upsert_token_model(m, user, kind, token, expiry),
{
    let row = TokenRowModel { user, kind, token, expiry };
    let m1 = upsert_token_model(m, user, kind, token, expiry);
    lemma_upsert_find(m, user, kind, token, expiry);
    assert(find_token(m1.tokens, user, kind) is Some);
    let m2 = upsert_token_model(m1, user, kind, token, expiry);
    assert forall|j: int| 0 <= j < m1.tokens.len() implies #[trigger] m2.tokens[j]
        == m1.tokens[j] by {
        if find_token(m.tokens, user, kind) is Some {
            assert(m1.tokens[j] == if token_row_matches(m.tokens[j], user, kind) {
                row
            } else {
                m.tokens[j]
            });
        } else {
            lemma_find_token_none(m.tokens, user, kind);
        }
        if token_row_matches(m1.tokens[j], user, kind) {
            assert(m1.tokens[j] == row);
        }
    }
    assert(m2.tokens =~= m1.tokens);
    assert(m2 =~= m1);
}

/// Upserting a token twice for one user and kind leaves exactly one row for
/// that user and kind, holding the values written last.
pub proof fn lemma_set_token_twice(
    m: StoreModel,
    user: Seq<char>,
    kind: OAuth2Tokentype,
    token1: Seq<char>,
    expiry1: int,
    token2: Seq<char>,
    expiry2: int,
)
    requires
        store_wf(m),
        m.users.contains(user),
    ensures
        ({
            let m2 = upsert_token_model(
                upsert_token_model(m, user, kind, token1, expiry1),
                user,
                kind,
                token2,
                expiry2,
            );
            &&& count_tokens(m2.tokens, user, kind) == 1
            &&& find_token(m2.tokens, user, kind) == Some(
                TokenRowModel { user, kind, token: token2, expiry: expiry2 },
            )
        }),
{
    let m1 = upsert_token_model(m, user, kind, token1, expiry1);
    lemma_upsert_wf(m, user, kind, token1, expiry1);
    lemma_upsert_count(m1, user, kind, token2, expiry2);
    lemma_upsert_find(m1, user, kind, token2, expiry2);
}

/// Appending a start row with a fresh id makes it the one `find_start` returns.
pub proof fn lemma_find_start_pushed(starts: Seq<StartRowModel>, row: StartRowModel)
    requires
        find_start(starts, row.id) is None,
    ensures
        find_start(starts.push(row), row.id) == Some(row),
    decreases starts.len(),
{
    if starts.len() == 0 {
        assert(starts.push(row)[0] == row);
    } else {
        assert(starts.push(row).drop_first() =~= starts.drop_first().push(row));
        lemma_find_start_pushed(starts.drop_first(), row);
    }
}

/// Skipping start rows whose id differs leaves `find_start` unchanged.
pub proof fn lemma_find_start_skip(starts: Seq<StartRowModel>, id: Seq<char>, i: int)
    requires
        0 <= i <= starts.len(),
        forall|k: int| 0 <= k < i ==> (#[trigger] starts[k]).id != id,
    ensures
        find_start(starts, id) == find_start(starts.skip(i), id),
    decreases i,
{
    if i > 0 {
        assert(forall|k: int|
            0 <= k < starts.drop_first().len() ==> starts.drop_first()[k] == starts[k + 1]);
        lemma_find_start_skip(starts.drop_first(), id, i - 1);
        assert(starts.drop_first().skip(i - 1) =~= starts.skip(i));
    } else {
        assert(starts.skip(0) =~= starts);
    }
}

/// `find_start` returns nothing exactly when no row has the id.
pub proof fn lemma_find_start_none(starts: Seq<StartRowModel>, id: Seq<char>)
    ensures
        (find_start(starts, id) is None) <==> (forall|k: int|
            0 <= k < starts.len() ==> (#[trigger] starts[k]).id != id),
    decreases starts.len(),
{
    if starts.len() > 0 {
        let tail = starts.drop_first();
        assert(forall|k: int| 0 <= k < tail.len() ==> tail[k] == starts[k + 1]);
        lemma_find_start_none(tail, id);
        if find_start(starts, id) is None {
            assert forall|k: int| 0 <= k < starts.len() implies (#[trigger] starts[k]).id != id by {
                if k > 0 {
                    assert(tail[k - 1].id != id);
                }
            }
        }
    }
}

/// The store itself. All reads and writes go through its methods; the
/// mathematical view abstracts it to the three relations.
pub struct TokenStore {
    users: Vec<String>,
    starts: Vec<StartRow>,
    tokens: Vec<TokenRow>,
}

impl View for TokenStore {
    type V = StoreModel;

    closed spec fn view(&self) -> StoreModel {
        StoreModel {
            users: self.users@.map_values(|s: String| s@),
            starts: self.starts@.map_values(|r: StartRow| r@),
            tokens: self.tokens@.map_values(|r: TokenRow| r@),
        }
    }
}

/// Errors a store operation can report.
pub enum Error {
    /// The user to create already exists.
    DuplicateUser,
    /// A freshly generated authorization-start id collided with a stored
    /// one; carries the colliding id.
    DuplicateAuthorizationId(String),
    /// The store contradicts its own invariant.
    InvalidState(String),
}

/// A freshly generated opaque identifier.
///
/// Relies on rand's `Alphanumeric` distribution: every sampled byte is one of
/// `A`-`Z`, `a`-`z`, `0`-`9`, and `take(len)` yields exactly `len` of them.
#[verifier::external_body]
fn generate_id(len: usize) -> (r: String)
    ensures
        r@.len() == len as nat,
        forall|i: int| 0 <= i < r@.len() ==> spec_alphanumeric(#[trigger] r@[i]),
{
    rand::thread_rng().sample_iter(rand::distributions::Alphanumeric).take(len).map(
        char::from,
    ).collect()
}

/// Whether a character is an ASCII letter or digit.
pub open spec fn spec_alphanumeric(c: char) -> bool {
    ||| 'A' as int <= c as int && c as int <= 'Z' as int
    ||| 'a' as int <= c as int && c as int <= 'z' as int
    ||| '0' as int <= c as int && c as int <= '9' as int
}

impl TokenStore {
    /// Every store starts (and by its contracts stays) well formed.
    pub open spec fn wf(&self) -> bool {
        store_wf(self@)
    }

    /// An empty store.
    pub fn new() -> (r: Self)
        ensures
            r@.users.len() == 0,
            r@.starts.len() == 0,
            r@.tokens.len() == 0,
            r.wf(),
    {
        let r = TokenStore { users: Vec::new(), starts: Vec::new(), tokens: Vec::new() };
        proof {
            assert(r@.users =~= Seq::<Seq<char>>::empty());
            assert(r@.starts =~= Seq::<StartRowModel>::empty());
            assert(r@.tokens =~= Seq::<TokenRowModel>::empty());
        }
        r
    }

    /// Look a user up by id.
    pub fn get_by_id(&self, id: &str) -> (r: Option<User>)
        ensures
            r matches Some(u) ==> u.id@ == id@ && self@.users.contains(id@),
            r is None ==> !self@.users.contains(id@),
    {
        let id_owned = id.to_owned();
        let n = self.users.len();
        let mut i: usize = 0;
        while i < n
            invariant
                n == self.users.len(),
                0 <= i <= n,
                id_owned@ == id@,
                forall|k: int| 0 <= k < i ==> self@.users[k] != id@,
            decreases n - i,
        {
            let u = &self.users[i];
            if u.eq(&id_owned) {
                assert(self@.users[i as int] == id@);
                return Some(User { id: id_owned });
            }
            i += 1;
        }
        assert(forall|k: int| 0 <= k < self@.users.len() ==> self@.users[k] != id@);
        None
    }

    /// Create a user; fails if a user with this id already exists.
    pub fn create(&mut self, id: &str) -> (r: Result<User, Error>)
        requires
            old(self).wf(),
        ensures
            final(self).wf(),
            r matches Ok(u) ==> u.id@ == id@ && !old(self)@.users.contains(id@)
                && final(self)@ == create_user_model(old(self)@, id@)
                && final(self)@.users.contains(id@),
            r is Err ==> (r matches Err(Error::DuplicateUser))
                && old(self)@.users.contains(id@) && final(self)@ == old(self)@,
    {
        if self.get_by_id(id).is_some() {
            return Err(Error::DuplicateUser);
        }
        let id_owned = id.to_owned();
        self.users.push(id_owned.clone());
        proof {
            assert(self@.users =~= old(self)@.users.push(id@));
            assert(self@ =~= create_user_model(old(self)@, id@));
            assert forall|i: int, j: int| 0 <= i < j < self@.users.len() implies self@.users[i]
                != self@.users[j] by {
                if j == self@.users.len() - 1 {
                    assert(self@.users[i] == old(self)@.users[i]);
                }
            }
            assert forall|i: int| 0 <= i < self@.starts.len() implies self@.users.contains(
                #[trigger] self@.starts[i].user,
            ) by {
                assert(old(self)@.users.contains(old(self)@.starts[i].user));
                let w = choose|k: int|
                    0 <= k < old(self)@.users.len() && old(self)@.users[k] == old(
                        self,
                    )@.starts[i].user;
                assert(self@.users[w] == self@.starts[i].user);
            }
            assert forall|i: int| 0 <= i < self@.tokens.len() implies self@.users.contains(
                #[trigger] self@.tokens[i].user,
            ) by {
                assert(old(self)@.users.contains(old(self)@.tokens[i].user));
                let w = choose|k: int|
                    0 <= k < old(self)@.users.len() && old(self)@.users[k] == old(
                        self,
                    )@.tokens[i].user;
                assert(self@.users[w] == self@.tokens[i].user);
            }
        }
        proof {
            assert(self@.users[self@.users.len() - 1] == id@);
        }
        Ok(User { id: id_owned })
    }

    /// All users, in insertion order. Used by the refresh scheduler.
    pub fn list_all(&self) -> (r: Vec<User>)
        ensures
            r@.len() == self@.users.len(),
            forall|i: int| 0 <= i < r@.len() ==> (#[trigger] r@[i]).id@ == self@.users[i],
    {
        let n = self.users.len();
        let mut r: Vec<User> = Vec::new();
        let mut i: usize = 0;
        while i < n
            invariant
                n == self.users.len(),
                0 <= i <= n,
                r@.len() == i,
                forall|k: int| 0 <= k < i ==> (#[trigger] r@[k]).id@ == self@.users[k],
            decreases n - i,
        {
            r.push(User { id: self.users[i].clone() });
            i += 1;
        }
        r
    }

    /// The position of the token row for the user and kind, if one exists.
    fn find_token_index(&self, user_id: &String, token_type: OAuth2Tokentype) -> (r: Option<
        usize,
    >)
        ensures
            r matches Some(i) ==> i < self@.tokens.len() && token_row_matches(
                self@.tokens[i as int],
                user_id@,
                token_type,
            ) && find_token(self@.tokens, user_id@, token_type) == Some(self@.tokens[i as int]),
            r is None ==> find_token(self@.tokens, user_id@, token_type) is None,
    {
        let n = self.tokens.len();
        let mut i: usize = 0;
        while i < n
            invariant
                n == self.tokens.len(),
                0 <= i <= n,
                forall|k: int|
                    0 <= k < i ==> !token_row_matches(
                        #[trigger] self@.tokens[k],
                        user_id@,
                        token_type,
                    ),
            decreases n - i,
        {
            let row = &self.tokens[i];
            assert(self@.tokens[i as int] == row@);
            if row.user_id.eq(user_id) && row.token_type == token_type {
                proof {
                    lemma_find_token_skip(self@.tokens, user_id@, token_type, i as int);
                    assert(self@.tokens.skip(i as int)[0] == self@.tokens[i as int]);
                }
                return Some(i);
            }
            i += 1;
        }
        proof {
            lemma_find_token_none(self@.tokens, user_id@, token_type);
        }
        None
    }

    /// The stored token of the given kind for the user, if any.
    pub fn get_token(&self, user: &User, token_type: OAuth2Tokentype) -> (r: Option<OAuth2Token>)
        ensures
            (find_token(self@.tokens, user.id@, token_type) matches Some(row) ==> r matches Some(t)
                && t.token@ == row.token && t.expiry as int == row.expiry && t.token_type
                == row.kind),
            find_token(self@.tokens, user.id@, token_type) is None ==> r is None,
    {
        match self.find_token_index(&user.id, token_type) {
            Some(i) => {
                let row = &self.tokens[i];
                Some(
                    OAuth2Token {
                        token: row.token.clone(),
                        expiry: row.expiry,
                        token_type: row.token_type,
                    },
                )
            },
            None => None,
        }
    }

    /// Upsert a token: overwrite the row for this user and kind if one
    /// exists, else insert one. Afterwards the user owns exactly one row of
    /// this kind, holding the written values.
    pub fn set_token(&mut self, user: &User, token: &str, expiry: i64, token_type: OAuth2Tokentype)
        requires
            old(self).wf(),
            old(self)@.users.contains(user.id@),
        ensures
            final(self).wf(),
            final(self)@ == upsert_token_model(
                old(self)@,
                user.id@,
                token_type,
                token@,
                expiry as int,
            ),
            count_tokens(final(self)@.tokens, user.id@, token_type) == 1,
            find_token(final(self)@.tokens, user.id@, token_type) == Some(
                TokenRowModel {
                    user: user.id@,
                    kind: token_type,
                    token: token@,
                    expiry: expiry as int,
                },
            ),
    {
        let new_row = TokenRow {
            user_id: user.id.clone(),
            token: token.to_owned(),
            expiry,
            token_type,
        };
        let ghost rowm = TokenRowModel {
            user: user.id@,
            kind: token_type,
            token: token@,
            expiry: expiry as int,
        };
        assert(new_row@ == rowm);
        let ghost m0 = self@;
        let ghost target = upsert_token_model(m0, user.id@, token_type, token@, expiry as int);
        match self.find_token_index(&user.id, token_type) {
            Some(i) => {
                self.tokens[i] = new_row;
                proof {
                    assert(self.tokens@ =~= old(self).tokens@.update(i as int, self.tokens@[i as int]));
                    assert(self@.tokens.len() == m0.tokens.len());
                    assert forall|j: int| 0 <= j < m0.tokens.len() implies #[trigger] self@.tokens[j]
                        == target.tokens[j] by {
                        assert(target.tokens[j] == if token_row_matches(
                            m0.tokens[j],
                            user.id@,
                            token_type,
                        ) {
                            rowm
                        } else {
                            m0.tokens[j]
                        });
                        if j != i {
                            assert(self@.tokens[j] == m0.tokens[j]);
                            if token_row_matches(m0.tokens[j], user.id@, token_type) {
                                assert(token_row_matches(m0.tokens[i as int], user.id@, token_type));
                                assert(false);
                            }
                        }
                    }
                    assert(self@.tokens =~= target.tokens);
                    assert(self@ =~= target);
                }
            },
            None => {
                self.tokens.push(new_row);
                proof {
                    assert(self@.tokens =~= m0.tokens.push(rowm));
                    assert(self@ =~= target);
                }
            },
        }
        proof {
            lemma_upsert_wf(m0, user.id@, token_type, token@, expiry as int);
            lemma_upsert_count(m0, user.id@, token_type, token@, expiry as int);
            lemma_upsert_find(m0, user.id@, token_type, token@, expiry as int);
        }
    }

    /// Upsert the user's access token.
    pub fn set_access_token(&mut self, user: &User, token: &str, expiry: i64)
        requires
            old(self).wf(),
            old(self)@.users.contains(user.id@),
        ensures
            final(self).wf(),
            final(self)@ == upsert_token_model(
                old(self)@,
                user.id@,
                OAuth2Tokentype::Access,
                token@,
                expiry as int,
            ),
            count_tokens(final(self)@.tokens, user.id@, OAuth2Tokentype::Access) == 1,
    {
        self.set_token(user, token, expiry, OAuth2Tokentype::Access)
    }

    /// Upsert the user's refresh token.
    pub fn set_refresh_token(&mut self, user: &User, token: &str, expiry: i64)
        requires
            old(self).wf(),
            old(self)@.users.contains(user.id@),
        ensures
            final(self).wf(),
            final(self)@ == upsert_token_model(
                old(self)@,
                user.id@,
                OAuth2Tokentype::Refresh,
                token@,
                expiry as int,
            ),
            count_tokens(final(self)@.tokens, user.id@, OAuth2Tokentype::Refresh) == 1,
    {
        self.set_token(user, token, expiry, OAuth2Tokentype::Refresh)
    }

    /// The user's stored access token, if any.
    pub fn get_access_token(&self, user: &User) -> (r: Option<OAuth2Token>)
        ensures
            (find_token(self@.tokens, user.id@, OAuth2Tokentype::Access) matches Some(row)
                ==> r matches Some(t) && t.token@ == row.token && t.expiry as int == row.expiry
                && t.token_type == row.kind),
            find_token(self@.tokens, user.id@, OAuth2Tokentype::Access) is None ==> r is None,
    {
        self.get_token(user, OAuth2Tokentype::Access)
    }

    /// The user's stored refresh token, if any.
    pub fn get_refresh_token(&self, user: &User) -> (r: Option<OAuth2Token>)
        ensures
            (find_token(self@.tokens, user.id@, OAuth2Tokentype::Refresh) matches Some(row)
                ==> r matches Some(t) && t.token@ == row.token && t.expiry as int == row.expiry
                && t.token_type == row.kind),
            find_token(self@.tokens, user.id@, OAuth2Tokentype::Refresh) is None ==> r is None,
    {
        self.get_token(user, OAuth2Tokentype::Refresh)
    }

    /// The position of the start row with the given id, if one exists.
    fn find_start_index(&self, id: &String) -> (r: Option<usize>)
        ensures
            r matches Some(i) ==> i < self@.starts.len() && self@.starts[i as int].id == id@
                && find_start(self@.starts, id@) == Some(self@.starts[i as int]),
            r is None ==> find_start(self@.starts, id@) is None,
    {
        let n = self.starts.len();
        let mut i: usize = 0;
        while i < n
            invariant
                n == self.starts.len(),
                0 <= i <= n,
                forall|k: int| 0 <= k < i ==> (#[trigger] self@.starts[k]).id != id@,
            decreases n - i,
        {
            let row = &self.starts[i];
            assert(self@.starts[i as int] == row@);
            if row.id.eq(id) {
                proof {
                    lemma_find_start_skip(self@.starts, id@, i as int);
                    assert(self@.starts.skip(i as int)[0] == self@.starts[i as int]);
                }
                return Some(i);
            }
            i += 1;
        }
        proof {
            lemma_find_start_none(self@.starts, id@);
        }
        None
    }

    /// Persist one authorization attempt under the given identifier and
    /// creation time: fails exactly when a stored attempt already carries the
    /// identifier, naming it in the error and leaving the store unchanged.
    pub fn insert_start(
        &mut self,
        user: &User,
        id: String,
        now: i64,
        exact_scopes: &str,
        caller: &str,
    ) -> (r: Result<AuthorizationStart, Error>)
        requires
            old(self).wf(),
            old(self)@.users.contains(user.id@),
        ensures
            final(self).wf(),
            (r is Err) <==> find_start(old(self)@.starts, id@) is Some,
            r matches Err(e) ==> final(self)@ == old(self)@ && (e matches Error::DuplicateAuthorizationId(cid)
                && cid@ == id@),
            r matches Ok(a) ==> ({
                let rowm = StartRowModel {
                    id: id@,
                    user: user.id@,
                    timestamp: now as int,
                    caller: caller@,
                    scopes: exact_scopes@,
                };
                &&& a.id@ == id@
                &&& a.timestamp == now
                &&& a.user.id@ == user.id@
                &&& a.exact_scopes@ == exact_scopes@
                &&& a.caller@ == caller@
                &&& final(self)@ == add_start_model(old(self)@, rowm)
                &&& find_start(final(self)@.starts, id@) == Some(rowm)
            }),
    {
        if self.find_start_index(&id).is_some() {
            return Err(Error::DuplicateAuthorizationId(id));
        }
        let row = StartRow {
            id: id.clone(),
            user_id: user.id.clone(),
            timestamp: now,
            caller: caller.to_owned(),
            scopes: exact_scopes.to_owned(),
        };
        let ghost rowm = StartRowModel {
            id: id@,
            user: user.id@,
            timestamp: now as int,
            caller: caller@,
            scopes: exact_scopes@,
        };
        assert(row@ == rowm);
        let ghost m0 = self@;
        self.starts.push(row);
        proof {
            assert(self@.starts =~= m0.starts.push(rowm));
            assert(self@ =~= add_start_model(m0, rowm));
            lemma_find_start_none(m0.starts, id@);
            lemma_find_start_pushed(m0.starts, rowm);
            assert forall|i: int, j: int| 0 <= i < j < self@.starts.len() implies self@.starts[i].id
                != self@.starts[j].id by {
                if j == self@.starts.len() - 1 {
                    assert(self@.starts[i] == m0.starts[i]);
                }
            }
            assert forall|i: int| 0 <= i < self@.starts.len() implies self@.users.contains(
                #[trigger] self@.starts[i].user,
            ) by {
                if i < m0.starts.len() {
                    assert(m0.users.contains(m0.starts[i].user));
                }
            }
        }
        Ok(
            AuthorizationStart {
                id,
                user: User { id: user.id.clone() },
                timestamp: now,
                caller: caller.to_owned(),
                exact_scopes: exact_scopes.to_owned(),
            },
        )
    }

    /// Open an authorization attempt for the user: generate the opaque
    /// `state` identifier, record the current time, the caller and the
    /// requested scopes, and persist the record. Fails exactly when the
    /// generated identifier collides with a stored attempt's; the error
    /// names the colliding identifier and the store is left unchanged.
    pub fn start_authorization(&mut self, user: &User, exact_scopes: &str, caller: &str) -> (r:
        Result<AuthorizationStart, Error>)
        requires
            old(self).wf(),
            old(self)@.users.contains(user.id@),
        ensures
            final(self).wf(),
            r matches Ok(a) ==> ({
                let rowm = StartRowModel {
                    id: a.id@,
                    user: user.id@,
                    timestamp: a.timestamp as int,
                    caller: caller@,
                    scopes: exact_scopes@,
                };
                &&& a.id@.len() == 32
                &&& (forall|i: int| 0 <= i < a.id@.len() ==> spec_alphanumeric(#[trigger] a.id@[i]))
                &&& a.user.id@ == user.id@
                &&& a.exact_scopes@ == exact_scopes@
                &&& a.caller@ == caller@
                &&& find_start(old(self)@.starts, a.id@) is None
                &&& final(self)@ == add_start_model(old(self)@, rowm)
                &&& find_start(final(self)@.starts, a.id@) == Some(rowm)
            }),
            r matches Err(e) ==> final(self)@ == old(self)@ && (e matches Error::DuplicateAuthorizationId(cid)
                && find_start(old(self)@.starts, cid@) is Some),
    {
        let id = generate_id(32);
        let now = unix_now();
        self.insert_start(user, id, now, exact_scopes, caller)
    }

    /// Look an authorization attempt up by its `state` identifier. Absence is
    /// an ordinary `None`; a record whose user is missing would be an
    /// invariant violation reported as an error, which a well-formed store
    /// never produces.
    pub fn get_by_authorization_start_id(&self, id: &str) -> (r: Result<
        Option<AuthorizationStart>,
        Error,
    >)
        requires
            self.wf(),
        ensures
            r is Ok,
            (find_start(self@.starts, id@) matches Some(row) ==> r matches Ok(Some(a)) && a.id@
                == row.id && a.id@ == id@ && a.user.id@ == row.user && a.timestamp as int
                == row.timestamp && a.caller@ == row.caller && a.exact_scopes@ == row.scopes),
            find_start(self@.starts, id@) is None ==> r matches Ok(None),
    {
        let id_owned = id.to_owned();
        let i = match self.find_start_index(&id_owned) {
            Some(i) => i,
            None => {
                return Ok(None);
            },
        };
        let row = &self.starts[i];
        assert(self@.starts[i as int] == row@);
        let user = match self.get_by_id(row.user_id.as_str()) {
            Some(u) => u,
            None => {
                assert(self@.users.contains(self@.starts[i as int].user));
                assert(false);
                return Err(
                    Error::InvalidState(
                        "Missing user for existing oauth2 authorization start".to_owned(),
                    ),
                );
            },
        };
        Ok(
            Some(
                AuthorizationStart {
                    id: id_owned,
                    user,
                    timestamp: row.timestamp,
                    caller: row.caller.clone(),
                    exact_scopes: row.scopes.clone(),
                },
            ),
        )
    }
}

} // verus!
