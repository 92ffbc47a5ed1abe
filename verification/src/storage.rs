//! The token and user tables the service keeps, and the service state that
//! holds them with the rate limiter, the metrics and the configuration.

use vstd::prelude::*;
use crate::config::AppConfig;
use crate::errors::{AppError, AppResult, ErrorKind};
use crate::metrics::MetricsStore;
use crate::monitoring::RateLimiter;
use crate::text::str_eq;

verus! {

/// One issued token: the user it was issued to, its kind and its unique id.
pub struct TokenEntry {
    pub username: Seq<char>,
    pub kind: Seq<char>,
    pub jti: Seq<char>,
}

/// A row of the token table.
pub struct TokenRecord {
    pub token: String,
    pub username: String,
    pub kind: String,
    pub jti: String,
}

impl TokenRecord {
    pub open spec fn entry(self) -> TokenEntry {
        TokenEntry { username: self.username@, kind: self.kind@, jti: self.jti@ }
    }
}

/// Which rows a deletion removes.
pub enum RowSelector<'a> {
    /// Rows with this token or with this token id.
    TokenOrJti(&'a str, &'a str),
    /// Rows issued to this user.
    User(&'a str),
    /// The row with this token.
    Token(&'a str),
    /// Rows of this kind issued to this user.
    UserKind(&'a str, &'a str),
}

/// Whether the row with token `t` and entry `e` is selected by `sel`.
pub open spec fn selects(sel: RowSelector, t: Seq<char>, e: TokenEntry) -> bool {
    match sel {
        RowSelector::TokenOrJti(tok, jti) => t == tok@ || e.jti == jti@,
        RowSelector::User(u) => e.username == u@,
        RowSelector::Token(tok) => t == tok@,
        RowSelector::UserKind(u, k) => e.username == u@ && e.kind == k@,
    }
}

/// The table without the rows that `sel` selects.
pub open spec fn without(m: Map<Seq<char>, TokenEntry>, sel: RowSelector) -> Map<Seq<char>, TokenEntry> {
    Map::new(|t: Seq<char>| m.dom().contains(t) && !selects(sel, t, m[t]), |t: Seq<char>| m[t])
}

/// Some row of the table has token id `jti`.
pub open spec fn has_jti(m: Map<Seq<char>, TokenEntry>, jti: Seq<char>) -> bool {
    exists|t: Seq<char>| #[trigger] m.dom().contains(t) && m[t].jti == jti
}

/// No two rows share a token id.
pub open spec fn jtis_unique(m: Map<Seq<char>, TokenEntry>) -> bool {
    forall|a: Seq<char>, b: Seq<char>|
        #![trigger m.dom().contains(a), m.dom().contains(b)]
        m.dom().contains(a) && m.dom().contains(b) && a != b ==> m[a].jti != m[b].jti
}

/// The table after saving a token: rows with the same token or token id are
/// replaced by the new row.
pub open spec fn saved(m: Map<Seq<char>, TokenEntry>, t: Seq<char>, e: TokenEntry) -> Map<Seq<char>, TokenEntry> {
    Map::new(
        |k: Seq<char>| k == t || (m.dom().contains(k) && m[k].jti != e.jti),
        |k: Seq<char>| if k == t { e } else { m[k] },
    )
}

/// The table without the rows of kind `kind` issued to `username`.
pub open spec fn without_kind(m: Map<Seq<char>, TokenEntry>, username: Seq<char>, kind: Seq<char>) -> Map<Seq<char>, TokenEntry> {
    Map::new(
        |t: Seq<char>| m.dom().contains(t) && !(m[t].username == username && m[t].kind == kind),
        |t: Seq<char>| m[t],
    )
}

/// Replacing the user's tokens of a kind by token `t` with id `jti`: the
/// refusal, if any, and the table after. The old rows are deleted first; the
/// insertion is refused when the token or its id is still in the table, and
/// the deletion stands.
pub open spec fn replaced(
    m: Map<Seq<char>, TokenEntry>,
    t: Seq<char>,
    username: Seq<char>,
    kind: Seq<char>,
    jti: Seq<char>,
) -> (Option<Seq<char>>, Map<Seq<char>, TokenEntry>) {
    let rest = without_kind(m, username, kind);
    if rest.dom().contains(t) {
        (Some("UNIQUE constraint failed: tokens.token"@), rest)
    } else if has_jti(rest, jti) {
        (Some("UNIQUE constraint failed: tokens.jti"@), rest)
    } else {
        (None, rest.insert(t, TokenEntry { username, kind, jti }))
    }
}

/// `r` reports the refusal `err`, if any.
pub open spec fn reports(r: AppResult<()>, err: Option<Seq<char>>) -> bool {
    match err {
        Some(msg) => r matches Err(e) && e.is(ErrorKind::Database, msg),
        None => r is Ok,
    }
}

spec fn row_map(rows: Seq<TokenRecord>) -> Map<Seq<char>, TokenEntry>
    decreases rows.len(),
{
    if rows.len() == 0 {
        Map::empty()
    } else {
        row_map(rows.drop_last()).insert(rows.last().token@, rows.last().entry())
    }
}

spec fn rows_distinct(rows: Seq<TokenRecord>) -> bool {
    &&& forall|i: int, j: int| 0 <= i < rows.len() && 0 <= j < rows.len() && i != j ==> rows[i].token@ != rows[j].token@
    &&& forall|i: int, j: int| 0 <= i < rows.len() && 0 <= j < rows.len() && i != j ==> rows[i].jti@ != rows[j].jti@
}

proof fn lemma_row_domain(rows: Seq<TokenRecord>, t: Seq<char>)
    ensures
        row_map(rows).dom().contains(t) <==> exists|i: int| 0 <= i < rows.len() && rows[i].token@ == t,
    decreases rows.len(),
{
    if rows.len() > 0 {
        lemma_row_domain(rows.drop_last(), t);
        if row_map(rows).dom().contains(t) && rows.last().token@ != t {
            let i = choose|i: int| 0 <= i < rows.len() - 1 && rows.drop_last()[i].token@ == t;
            assert(rows[i].token@ == t);
        }
        if exists|i: int| 0 <= i < rows.len() && rows[i].token@ == t {
            let i = choose|i: int| 0 <= i < rows.len() && rows[i].token@ == t;
            if i < rows.len() - 1 {
                assert(rows.drop_last()[i].token@ == t);
            }
        }
    }
}

proof fn lemma_row_value(rows: Seq<TokenRecord>, i: int)
    requires
        rows_distinct(rows),
        0 <= i < rows.len(),
    ensures
        row_map(rows).dom().contains(rows[i].token@),
        row_map(rows)[rows[i].token@] == rows[i].entry(),
    decreases rows.len(),
{
    if i < rows.len() - 1 {
        lemma_row_value(rows.drop_last(), i);
        assert(rows.drop_last()[i] == rows[i]);
    }
}

/// Every row of the map comes from some row of the sequence.
proof fn lemma_row_source(rows: Seq<TokenRecord>, t: Seq<char>)
    requires
        rows_distinct(rows),
        row_map(rows).dom().contains(t),
    ensures
        exists|i: int| 0 <= i < rows.len() && rows[i].token@ == t && row_map(rows)[t] == rows[i].entry(),
{
    lemma_row_domain(rows, t);
    let i = choose|i: int| 0 <= i < rows.len() && rows[i].token@ == t;
    lemma_row_value(rows, i);
}

proof fn lemma_rows_jtis_unique(rows: Seq<TokenRecord>)
    requires
        rows_distinct(rows),
    ensures
        jtis_unique(row_map(rows)),
{
    let m = row_map(rows);
    assert forall|a: Seq<char>, b: Seq<char>|
        #![trigger m.dom().contains(a), m.dom().contains(b)]
        m.dom().contains(a) && m.dom().contains(b) && a != b implies m[a].jti != m[b].jti by {
        lemma_row_source(rows, a);
        lemma_row_source(rows, b);
        let i = choose|i: int| 0 <= i < rows.len() && rows[i].token@ == a && m[a] == rows[i].entry();
        let j = choose|j: int| 0 <= j < rows.len() && rows[j].token@ == b && m[b] == rows[j].entry();
    }
}

fn row_selected(sel: &RowSelector, r: &TokenRecord) -> (b: bool)
    ensures
        b == selects(*sel, r.token@, r.entry()),
{
    match sel {
        RowSelector::TokenOrJti(tok, jti) => str_eq(r.token.as_str(), tok) || str_eq(r.jti.as_str(), jti),
        RowSelector::User(u) => str_eq(r.username.as_str(), u),
        RowSelector::Token(tok) => str_eq(r.token.as_str(), tok),
        RowSelector::UserKind(u, k) => str_eq(r.username.as_str(), u) && str_eq(r.kind.as_str(), k),
    }
}

/// The token table: each token with the user it was issued to, its kind and its
/// unique id. Tokens are unique, and so are token ids.
pub struct TokenStore {
    rows: Vec<TokenRecord>,
}

impl View for TokenStore {
    type V = Map<Seq<char>, TokenEntry>;

    closed spec fn view(&self) -> Map<Seq<char>, TokenEntry> {
        row_map(self.rows@)
    }
}

impl TokenStore {
    #[verifier::type_invariant]
    spec fn inv(self) -> bool {
        rows_distinct(self.rows@)
    }

    /// An empty table.
    pub fn new() -> (s: TokenStore)
        ensures
            s@ == Map::<Seq<char>, TokenEntry>::empty(),
    {
        TokenStore { rows: Vec::new() }
    }

    /// Removes the selected rows.
    fn delete_where(&mut self, sel: RowSelector)
        ensures
            final(self)@ == without(old(self)@, sel),
            jtis_unique(final(self)@),
    {
        proof {
            use_type_invariant(&*self);
        }
        let mut rows: Vec<TokenRecord> = Vec::new();
        std::mem::swap(&mut rows, &mut self.rows);
        let ghost old_rows = rows@;
        let mut kept: Vec<TokenRecord> = Vec::new();
        let n = rows.len();
        let mut i: usize = 0;
        while i < n
            invariant
                n == old_rows.len(),
                rows@ == old_rows.subrange(i as int, n as int),
                i <= n,
                rows_distinct(old_rows),
                rows_distinct(kept@),
                forall|a: int| 0 <= a < kept@.len() ==> exists|b: int| 0 <= b < i && #[trigger] kept@[a] == old_rows[b],
                row_map(kept@) == without(row_map(old_rows.subrange(0, i as int)), sel),
            decreases n - i,
        {
            let ghost prefix = old_rows.subrange(0, i as int);
            let ghost rows_before = rows@;
            let r = rows.remove(0);
            assert(r == old_rows[i as int]);
            assert(rows@ =~= old_rows.subrange(i + 1, n as int));
            let ghost next = old_rows.subrange(0, i + 1);
            assert(next.drop_last() =~= prefix);
            assert(next.last() == r);
            proof {
                lemma_row_domain(prefix, r.token@);
                if row_map(prefix).dom().contains(r.token@) {
                    let b = choose|b: int| 0 <= b < prefix.len() && prefix[b].token@ == r.token@;
                    assert(old_rows[b].token@ == old_rows[i as int].token@);
                }
            }
            if !row_selected(&sel, &r) {
                let ghost kept_before = kept@;
                proof {
                    assert forall|a: int| 0 <= a < kept_before.len() implies kept_before[a].token@ != r.token@ && kept_before[a].jti@ != r.jti@ by {
                        let b = choose|b: int| 0 <= b < i && #[trigger] kept_before[a] == old_rows[b];
                        assert(b != i);
                    }
                }
                kept.push(r);
                proof {
                    assert(kept@.drop_last() =~= kept_before);
                    assert forall|a: int| 0 <= a < kept@.len() implies exists|b: int| 0 <= b < i + 1 && #[trigger] kept@[a] == old_rows[b] by {
                        if a < kept_before.len() {
                            let b = choose|b: int| 0 <= b < i && #[trigger] kept_before[a] == old_rows[b];
                            assert(kept@[a] == old_rows[b]);
                        } else {
                            assert(kept@[a] == old_rows[i as int]);
                        }
                    }
                    assert(row_map(kept@) =~= without(row_map(next), sel));
                }
            } else {
                proof {
                    assert(row_map(kept@) =~= without(row_map(next), sel));
                }
            }
            i = i + 1;
        }
        assert(old_rows.subrange(0, n as int) =~= old_rows);
        proof {
            lemma_rows_jtis_unique(kept@);
        }
        self.rows = kept;
    }

    /// Saves a token, replacing any row with the same token or the same token id
    /// (`INSERT OR REPLACE`).
    pub fn save_token(&mut self, token: &str, username: &str, kind: &str, jti: &str)
        ensures
            final(self)@ == saved(
                old(self)@,
                token@,
                TokenEntry { username: username@, kind: kind@, jti: jti@ },
            ),
            jtis_unique(final(self)@),
    {
        self.delete_where(RowSelector::TokenOrJti(token, jti));
        self.push_row(token, username, kind, jti);
        assert(self@ =~= saved(
            old(self)@,
            token@,
            TokenEntry { username: username@, kind: kind@, jti: jti@ },
        ));
    }

    /// Appends a row whose token and token id are not yet in the table.
    fn push_row(&mut self, token: &str, username: &str, kind: &str, jti: &str)
        requires
            !old(self)@.dom().contains(token@),
            !has_jti(old(self)@, jti@),
        ensures
            final(self)@ == old(self)@.insert(
                token@,
                TokenEntry { username: username@, kind: kind@, jti: jti@ },
            ),
            jtis_unique(final(self)@),
    {
        proof {
            use_type_invariant(&*self);
        }
        let mut rows: Vec<TokenRecord> = Vec::new();
        std::mem::swap(&mut rows, &mut self.rows);
        let ghost before = rows@;
        let r = TokenRecord {
            token: String::from_str(token),
            username: String::from_str(username),
            kind: String::from_str(kind),
            jti: String::from_str(jti),
        };
        proof {
            assert forall|a: int| 0 <= a < before.len() implies before[a].token@ != token@ && before[a].jti@ != jti@ by {
                lemma_row_value(before, a);
            }
        }
        rows.push(r);
        proof {
            assert(rows@.drop_last() =~= before);
            lemma_rows_jtis_unique(rows@);
        }
        self.rows = rows;
    }

    /// The user a token was issued to, if the token is in the table.
    pub fn get_user_id(&self, token: &str) -> (r: Option<String>)
        ensures
            match r {
                Some(u) => self@.dom().contains(token@) && self@[token@].username == u@,
                None => !self@.dom().contains(token@),
            },
    {
        proof {
            use_type_invariant(self);
        }
        let n = self.rows.len();
        let mut i: usize = 0;
        while i < n
            invariant
                n == self.rows@.len(),
                i <= n,
                rows_distinct(self.rows@),
                forall|j: int| 0 <= j < i ==> self.rows@[j].token@ != token@,
            decreases n - i,
        {
            if str_eq(self.rows[i].token.as_str(), token) {
                proof {
                    lemma_row_value(self.rows@, i as int);
                }
                return Some(self.rows[i].username.clone());
            }
            i = i + 1;
        }
        proof {
            lemma_row_domain(self.rows@, token@);
        }
        None
    }

    /// Whether the token is in the table.
    pub fn has_token(&self, token: &str) -> (b: bool)
        ensures
            b == self@.dom().contains(token@),
    {
        self.get_user_id(token).is_some()
    }

    /// The rows of the table, each once.
    pub fn records(&self) -> (v: Vec<TokenRecord>)
        ensures
            forall|i: int| 0 <= i < v@.len() ==> #[trigger] self@.dom().contains(v@[i].token@)
                && self@[v@[i].token@] == v@[i].entry(),
            forall|t: Seq<char>| #[trigger] self@.dom().contains(t) ==> exists|i: int| 0 <= i < v@.len() && v@[i].token@ == t,
            forall|i: int, j: int| 0 <= i < v@.len() && 0 <= j < v@.len() && i != j ==> v@[i].token@ != v@[j].token@,
    {
        proof {
            use_type_invariant(self);
        }
        let mut v: Vec<TokenRecord> = Vec::new();
        let n = self.rows.len();
        let mut i: usize = 0;
        while i < n
            invariant
                n == self.rows@.len(),
                i <= n,
                rows_distinct(self.rows@),
                v@.len() == i,
                forall|j: int| 0 <= j < i ==> #[trigger] v@[j] == self.rows@[j],
            decreases n - i,
        {
            let r = &self.rows[i];
            let copy = TokenRecord {
                token: r.token.clone(),
                username: r.username.clone(),
                kind: r.kind.clone(),
                jti: r.jti.clone(),
            };
            v.push(copy);
            i = i + 1;
        }
        proof {
            assert(v@ =~= self.rows@);
            assert forall|j: int| 0 <= j < v@.len() implies #[trigger] self@.dom().contains(v@[j].token@)
                && self@[v@[j].token@] == v@[j].entry() by {
                lemma_row_value(self.rows@, j);
            }
            assert forall|t: Seq<char>| #[trigger] self@.dom().contains(t) implies exists|j: int| 0 <= j < v@.len() && v@[j].token@ == t by {
                lemma_row_domain(self.rows@, t);
            }
        }
        v
    }

    /// The kind of a token, if the token is in the table.
    pub fn token_kind(&self, token: &str) -> (r: Option<String>)
        ensures
            match r {
                Some(k) => self@.dom().contains(token@) && self@[token@].kind == k@,
                None => !self@.dom().contains(token@),
            },
    {
        proof {
            use_type_invariant(self);
        }
        let n = self.rows.len();
        let mut i: usize = 0;
        while i < n
            invariant
                n == self.rows@.len(),
                i <= n,
                rows_distinct(self.rows@),
                forall|j: int| 0 <= j < i ==> self.rows@[j].token@ != token@,
            decreases n - i,
        {
            if str_eq(self.rows[i].token.as_str(), token) {
                proof {
                    lemma_row_value(self.rows@, i as int);
                }
                return Some(self.rows[i].kind.clone());
            }
            i = i + 1;
        }
        proof {
            lemma_row_domain(self.rows@, token@);
        }
        None
    }

    /// Removes every token issued to the user.
    pub fn revoke_user_tokens(&mut self, username: &str)
        ensures
            final(self)@ == without(old(self)@, RowSelector::User(username)),
            jtis_unique(final(self)@),
    {
        self.delete_where(RowSelector::User(username));
    }

    /// Removes the token.
    pub fn invalidate_token(&mut self, token: &str)
        ensures
            final(self)@ == old(self)@.remove(token@),
            jtis_unique(final(self)@),
    {
        self.delete_where(RowSelector::Token(token));
        assert(self@ =~= old(self)@.remove(token@));
    }

    /// Replaces the user's tokens of the given kind by a new token: the old
    /// rows are deleted, then the new row is inserted, which fails when its
    /// token or token id is still in the table (the deletion stands).
    pub fn replace_token_for_user(&mut self, token: &str, username: &str, kind: &str, jti: &str) -> (r: AppResult<()>)
        ensures
            reports(r, replaced(old(self)@, token@, username@, kind@, jti@).0),
            final(self)@ == replaced(old(self)@, token@, username@, kind@, jti@).1,
            jtis_unique(final(self)@),
    {
        let ghost before = self@;
        proof {
            assert(without(before, RowSelector::UserKind(username, kind)) =~= without_kind(before, username@, kind@));
        }
        self.delete_where(RowSelector::UserKind(username, kind));
        if self.has_token(token) {
            return Err(AppError::Database(String::from_str("UNIQUE constraint failed: tokens.token")));
        }
        if self.has_token_id(jti) {
            return Err(AppError::Database(String::from_str("UNIQUE constraint failed: tokens.jti")));
        }
        self.push_row(token, username, kind, jti);
        Ok(())
    }

    /// Whether some row has the token id.
    fn has_token_id(&self, jti: &str) -> (b: bool)
        ensures
            b == has_jti(self@, jti@),
    {
        proof {
            use_type_invariant(self);
        }
        let n = self.rows.len();
        let mut i: usize = 0;
        while i < n
            invariant
                n == self.rows@.len(),
                i <= n,
                rows_distinct(self.rows@),
                forall|j: int| 0 <= j < i ==> self.rows@[j].jti@ != jti@,
            decreases n - i,
        {
            if str_eq(self.rows[i].jti.as_str(), jti) {
                proof {
                    lemma_row_value(self.rows@, i as int);
                }
                return true;
            }
            i = i + 1;
        }
        proof {
            if has_jti(self@, jti@) {
                let t = choose|t: Seq<char>| #[trigger] self@.dom().contains(t) && self@[t].jti == jti@;
                lemma_row_source(self.rows@, t);
            }
        }
        false
    }
}


/// The token table always holds the token just saved, with its entry.
pub proof fn lemma_saved_token_found(m: Map<Seq<char>, TokenEntry>, t: Seq<char>, e: TokenEntry)
    ensures
        saved(m, t, e).dom().contains(t),
        saved(m, t, e)[t] == e,
{
}

/// Saving a token keeps every other row whose token id differs from the new one.
pub proof fn lemma_save_keeps_others(m: Map<Seq<char>, TokenEntry>, t: Seq<char>, e: TokenEntry, other: Seq<char>)
    requires
        other != t,
        m.dom().contains(other),
        m[other].jti != e.jti,
    ensures
        saved(m, t, e).dom().contains(other),
        saved(m, t, e)[other] == m[other],
{
}

/// Invalidating a token removes that token and no other.
pub proof fn lemma_invalidate_only_target(m: Map<Seq<char>, TokenEntry>, t: Seq<char>, other: Seq<char>)
    requires
        other != t,
    ensures
        !m.remove(t).dom().contains(t),
        m.remove(t).dom().contains(other) == m.dom().contains(other),
        m.dom().contains(other) ==> m.remove(t)[other] == m[other],
{
}

/// Revoking a user's tokens removes exactly the tokens issued to that user.
pub proof fn lemma_revoke_removes_exactly_user(m: Map<Seq<char>, TokenEntry>, u: &str, t: Seq<char>)
    ensures
        without(m, RowSelector::User(u)).dom().contains(t) <==> (m.dom().contains(t) && m[t].username != u@),
{
}

/// After a successful replacement the new token is the only one of its kind
/// for the user.
pub proof fn lemma_replace_leaves_single_token(
    m: Map<Seq<char>, TokenEntry>,
    token: Seq<char>,
    username: Seq<char>,
    kind: Seq<char>,
    jti: Seq<char>,
    t: Seq<char>,
)
    requires
        replaced(m, token, username, kind, jti).0 is None,
    ensures
        ({
            let after = replaced(m, token, username, kind, jti).1;
            &&& after.dom().contains(token) && after[token] == (TokenEntry { username, kind, jti })
            &&& after.dom().contains(t) && after[t].username == username && after[t].kind == kind ==> t == token
        }),
{
}

/// A replacement, refused or not, leaves every other user's tokens untouched.
pub proof fn lemma_replace_keeps_other_users(
    m: Map<Seq<char>, TokenEntry>,
    token: Seq<char>,
    username: Seq<char>,
    kind: Seq<char>,
    jti: Seq<char>,
    other: Seq<char>,
)
    requires
        m.dom().contains(other),
        m[other].username != username,
        other != token,
    ensures
        ({
            let after = replaced(m, token, username, kind, jti).1;
            after.dom().contains(other) && after[other] == m[other]
        }),
{
}

/// One user and the hash of the password.
pub struct UserRecord {
    pub username: String,
    pub password_hash: String,
}

spec fn user_map(rows: Seq<UserRecord>) -> Map<Seq<char>, Seq<char>>
    decreases rows.len(),
{
    if rows.len() == 0 {
        Map::empty()
    } else {
        user_map(rows.drop_last()).insert(rows.last().username@, rows.last().password_hash@)
    }
}

spec fn users_distinct(rows: Seq<UserRecord>) -> bool {
    forall|i: int, j: int| 0 <= i < rows.len() && 0 <= j < rows.len() && i != j ==> rows[i].username@ != rows[j].username@
}

proof fn lemma_user_domain(rows: Seq<UserRecord>, u: Seq<char>)
    ensures
        user_map(rows).dom().contains(u) <==> exists|i: int| 0 <= i < rows.len() && rows[i].username@ == u,
    decreases rows.len(),
{
    if rows.len() > 0 {
        lemma_user_domain(rows.drop_last(), u);
        if user_map(rows).dom().contains(u) && rows.last().username@ != u {
            let i = choose|i: int| 0 <= i < rows.len() - 1 && rows.drop_last()[i].username@ == u;
            assert(rows[i].username@ == u);
        }
        if exists|i: int| 0 <= i < rows.len() && rows[i].username@ == u {
            let i = choose|i: int| 0 <= i < rows.len() && rows[i].username@ == u;
            if i < rows.len() - 1 {
                assert(rows.drop_last()[i].username@ == u);
            }
        }
    }
}

proof fn lemma_user_value(rows: Seq<UserRecord>, i: int)
    requires
        users_distinct(rows),
        0 <= i < rows.len(),
    ensures
        user_map(rows).dom().contains(rows[i].username@),
        user_map(rows)[rows[i].username@] == rows[i].password_hash@,
    decreases rows.len(),
{
    if i < rows.len() - 1 {
        lemma_user_value(rows.drop_last(), i);
        assert(rows.drop_last()[i] == rows[i]);
    }
}

/// The user table: each username with the hash of the user's password.
pub struct UserStore {
    rows: Vec<UserRecord>,
}

impl View for UserStore {
    type V = Map<Seq<char>, Seq<char>>;

    closed spec fn view(&self) -> Map<Seq<char>, Seq<char>> {
        user_map(self.rows@)
    }
}

impl UserStore {
    #[verifier::type_invariant]
    spec fn inv(self) -> bool {
        users_distinct(self.rows@)
    }

    /// An empty table.
    pub fn new() -> (s: UserStore)
        ensures
            s@ == Map::<Seq<char>, Seq<char>>::empty(),
    {
        UserStore { rows: Vec::new() }
    }

    /// Adds a user; fails, leaving the table unchanged, when the username is taken.
    pub fn create_user(&mut self, username: &str, password_hash: &str) -> (r: AppResult<()>)
        ensures
            old(self)@.dom().contains(username@) ==> {
                &&& r matches Err(e) && e.is(ErrorKind::Database, "UNIQUE constraint failed: users.username"@)
                &&& final(self)@ == old(self)@
            },
            !old(self)@.dom().contains(username@) ==> {
                &&& r is Ok
                &&& final(self)@ == old(self)@.insert(username@, password_hash@)
            },
    {
        if self.find_user(username).is_some() {
            return Err(AppError::Database(String::from_str("UNIQUE constraint failed: users.username")));
        }
        proof {
            use_type_invariant(&*self);
        }
        let mut rows: Vec<UserRecord> = Vec::new();
        std::mem::swap(&mut rows, &mut self.rows);
        let ghost before = rows@;
        proof {
            assert forall|a: int| 0 <= a < before.len() implies before[a].username@ != username@ by {
                lemma_user_value(before, a);
            }
        }
        rows.push(UserRecord {
            username: String::from_str(username),
            password_hash: String::from_str(password_hash),
        });
        proof {
            assert(rows@.drop_last() =~= before);
        }
        self.rows = rows;
        Ok(())
    }

    /// The stored password hash of the user, if the user exists.
    pub fn find_user(&self, username: &str) -> (r: Option<String>)
        ensures
            match r {
                Some(h) => self@.dom().contains(username@) && self@[username@] == h@,
                None => !self@.dom().contains(username@),
            },
    {
        proof {
            use_type_invariant(self);
        }
        let n = self.rows.len();
        let mut i: usize = 0;
        while i < n
            invariant
                n == self.rows@.len(),
                i <= n,
                users_distinct(self.rows@),
                forall|j: int| 0 <= j < i ==> self.rows@[j].username@ != username@,
            decreases n - i,
        {
            if str_eq(self.rows[i].username.as_str(), username) {
                proof {
                    lemma_user_value(self.rows@, i as int);
                }
                return Some(self.rows[i].password_hash.clone());
            }
            i = i + 1;
        }
        proof {
            lemma_user_domain(self.rows@, username@);
        }
        None
    }
}

/// Creating a user never overwrites an existing one, and a created user is
/// found with the hash it was created with.
pub proof fn lemma_create_then_find(m: Map<Seq<char>, Seq<char>>, u: Seq<char>, h: Seq<char>)
    requires
        !m.dom().contains(u),
    ensures
        m.insert(u, h).dom().contains(u),
        m.insert(u, h)[u] == h,
        forall|v: Seq<char>| #[trigger] m.dom().contains(v) ==> m.insert(u, h)[v] == m[v],
{
}

/// Everything the service keeps: the tables, the rate limiter, the metrics and
/// the configuration.
pub struct AppState {
    pub users: UserStore,
    pub tokens: TokenStore,
    pub rate_limiter: RateLimiter,
    pub metrics: MetricsStore,
    pub config: AppConfig,
}

impl AppState {
    /// The state for the default configuration.
    pub fn new() -> (s: AppState)
        ensures
            s.config.is_default(),
            s.users@ == Map::<Seq<char>, Seq<char>>::empty(),
            s.tokens@ == Map::<Seq<char>, TokenEntry>::empty(),
            s.rate_limiter@.max_requests == 60,
            s.rate_limiter@.window_nanos == 60 * crate::monitoring::nanos_per_sec(),
            s.rate_limiter@.buckets == Map::<Seq<char>, Seq<u128>>::empty(),
            s.metrics@.error_threshold == 5,
            s.metrics@.requests_total == 0,
            s.metrics@.errors_total == 0,
            s.metrics@.alerts_total == 0,
            s.metrics@.auth_requests_total == 0,
            s.metrics@.consistent(),
    {
        Self::new_with_config(AppConfig::default())
    }

    /// The state for the given configuration: empty tables, a rate limiter and
    /// metrics set up from it.
    pub fn new_with_config(config: AppConfig) -> (s: AppState)
        ensures
            s.config == config,
            s.users@ == Map::<Seq<char>, Seq<char>>::empty(),
            s.tokens@ == Map::<Seq<char>, TokenEntry>::empty(),
            s.rate_limiter@.max_requests == config.rate_limit_max_requests,
            s.rate_limiter@.window_nanos == config.rate_limit_window_secs * crate::monitoring::nanos_per_sec(),
            s.rate_limiter@.buckets == Map::<Seq<char>, Seq<u128>>::empty(),
            s.metrics@.error_threshold == config.metrics_error_threshold,
            s.metrics@.requests_total == 0,
            s.metrics@.errors_total == 0,
            s.metrics@.alerts_total == 0,
            s.metrics@.auth_requests_total == 0,
            s.metrics@.consistent(),
    {
        let rate_limiter = RateLimiter::new(
            config.rate_limit_max_requests,
            config.rate_limit_window_secs as u128 * 1_000_000_000,
        );
        let metrics = MetricsStore::new_with_threshold(config.metrics_error_threshold);
        AppState { users: UserStore::new(), tokens: TokenStore::new(), rate_limiter, metrics, config }
    }
}

} // verus!
