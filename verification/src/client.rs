//! The stored credential of a user: the OAuth token together with what is
//! needed to build a working API client from it again.

use vstd::prelude::*;
use vstd::string::*;
use crate::table::find_key;

verus! {

/// An OAuth token as the provider issued it. Times are seconds; `expires_at`
/// counts from the Unix epoch.
#[derive(Debug, PartialEq, Eq)]
pub struct Token {
    pub access_token: String,
    pub refresh_token: Option<String>,
    pub expires_in: i64,
    pub expires_at: Option<i64>,
    pub scopes: Vec<String>,
}

/// The mathematical value of a [`Token`].
pub struct TokenView {
    pub access_token: Seq<char>,
    pub refresh_token: Option<Seq<char>>,
    pub expires_in: i64,
    pub expires_at: Option<i64>,
    pub scopes: Seq<Seq<char>>,
}

/// A user's credential: the token, the user it belongs to, and the client
/// settings it was obtained with.
#[derive(Debug, PartialEq, Eq)]
pub struct PackedClient {
    pub client_id: String,
    pub client_secret: String,
    pub user_id: String,
    pub redirect_uri: String,
    pub scopes: Vec<String>,
    pub token: Token,
}

/// The mathematical value of a [`PackedClient`].
pub struct PackedClientView {
    pub client_id: Seq<char>,
    pub client_secret: Seq<char>,
    pub user_id: Seq<char>,
    pub redirect_uri: Seq<char>,
    pub scopes: Seq<Seq<char>>,
    pub token: TokenView,
}

impl View for Token {
    type V = TokenView;

    open spec fn view(&self) -> TokenView {
        TokenView {
            access_token: self.access_token@,
            refresh_token: self.refresh_token.deep_view(),
            expires_in: self.expires_in,
            expires_at: self.expires_at,
            scopes: self.scopes.deep_view(),
        }
    }
}

impl View for PackedClient {
    type V = PackedClientView;

    open spec fn view(&self) -> PackedClientView {
        PackedClientView {
            client_id: self.client_id@,
            client_secret: self.client_secret@,
            user_id: self.user_id@,
            redirect_uri: self.redirect_uri@,
            scopes: self.scopes.deep_view(),
            token: self.token@,
        }
    }
}

/// A list of texts without its repeats: of each text the first occurrence,
/// in the order of the list.
pub open spec fn spec_unique(texts: Seq<Seq<char>>) -> Seq<Seq<char>>
    decreases texts.len(),
{
    if texts.len() == 0 {
        Seq::empty()
    } else {
        let front = spec_unique(texts.drop_last());
        if front.contains(texts.last()) {
            front
        } else {
            front.push(texts.last())
        }
    }
}

/// A list without its repeats holds nothing twice and holds the texts that
/// the list holds.
pub proof fn lemma_unique(texts: Seq<Seq<char>>)
    ensures
        spec_unique(texts).no_duplicates(),
        forall|t: Seq<char>| spec_unique(texts).contains(t) <==> texts.contains(t),
        spec_unique(texts).len() <= texts.len(),
    decreases texts.len(),
{
    if texts.len() > 0 {
        let rest = texts.drop_last();
        let last = texts.last();
        lemma_unique(rest);
        let front = spec_unique(rest);
        let all = spec_unique(texts);
        assert forall|t: Seq<char>| all.contains(t) <==> texts.contains(t) by {
            if all.contains(t) {
                let i = choose|i: int| 0 <= i < all.len() && all[i] == t;
                if i < front.len() {
                    assert(front[i] == t);
                    assert(front.contains(t));
                    assert(rest.contains(t));
                    let j = choose|j: int| 0 <= j < rest.len() && rest[j] == t;
                    assert(rest[j] == texts[j]);
                    assert(texts[j] == t);
                } else {
                    assert(all == front.push(last));
                    assert(texts[texts.len() - 1] == t);
                }
            }
            if texts.contains(t) {
                let j = choose|j: int| 0 <= j < texts.len() && texts[j] == t;
                if j < rest.len() {
                    assert(rest[j] == t);
                    assert(rest.contains(t));
                    assert(front.contains(t));
                    let i = choose|i: int| 0 <= i < front.len() && front[i] == t;
                    assert(all[i] == t);
                } else if front.contains(last) {
                    assert(all == front);
                } else {
                    assert(all[front.len() as int] == t);
                }
            }
        }
    }
}

/// A list that holds nothing twice is itself without its repeats.
pub proof fn lemma_unique_of_distinct(texts: Seq<Seq<char>>)
    requires
        texts.no_duplicates(),
    ensures
        spec_unique(texts) == texts,
    decreases texts.len(),
{
    if texts.len() > 0 {
        let rest = texts.drop_last();
        assert(rest.no_duplicates());
        lemma_unique_of_distinct(rest);
        if rest.contains(texts.last()) {
            let j = choose|j: int| 0 <= j < rest.len() && rest[j] == texts.last();
            assert(texts[j] == texts[texts.len() - 1]);
        }
        assert(rest.push(texts.last()) =~= texts);
    } else {
        assert(texts =~= Seq::empty());
    }
}

/// Takes the repeats out of a list of texts.
pub fn unique_texts(texts: Vec<String>) -> (unique: Vec<String>)
    ensures
        unique.deep_view() == spec_unique(texts.deep_view()),
{
    let ghost all = texts.deep_view();
    let mut unique: Vec<String> = Vec::new();
    let mut i: usize = 0;
    assert(all.take(0) =~= Seq::<Seq<char>>::empty());
    assert(unique.deep_view() =~= Seq::<Seq<char>>::empty());
    while i < texts.len()
        invariant
            i <= texts.len(),
            all == texts.deep_view(),
            unique.deep_view() == spec_unique(all.take(i as int)),
        decreases texts.len() - i,
    {
        let ghost before = unique.deep_view();
        let found = find_key(&unique, texts[i].as_str());
        proof {
            assert(all.take(i + 1).drop_last() =~= all.take(i as int));
            assert(all.take(i + 1).last() == texts[i as int]@);
            match found {
                Some(at) => {
                    assert(before[at as int] == texts[i as int]@);
                },
                None => {
                    if before.contains(texts[i as int]@) {
                        let j = choose|j: int| 0 <= j < before.len() && before[j] == texts[i as int]@;
                        assert(unique[j]@ == texts[i as int]@);
                    }
                },
            }
        }
        if found.is_none() {
            unique.push(texts[i].clone());
            assert(unique.deep_view() =~= before.push(texts[i as int]@));
        }
        i += 1;
    }
    assert(all.take(texts.len() as int) =~= all);
    unique
}

impl TokenView {
    /// The scopes are a set: none occurs twice.
    pub open spec fn wf(self) -> bool {
        self.scopes.no_duplicates()
    }

    /// The token with the repeats taken out of its scopes.
    pub open spec fn normalized(self) -> TokenView {
        TokenView { scopes: spec_unique(self.scopes), ..self }
    }

    /// A token is due for renewal once its expiry time has come; one without
    /// an expiry time always is.
    pub open spec fn expired_at(self, now: int) -> bool {
        match self.expires_at {
            Some(t) => now >= t,
            None => true,
        }
    }
}

impl PackedClientView {
    /// The scopes, of the client and of the token, are sets: none occurs
    /// twice.
    pub open spec fn wf(self) -> bool {
        &&& self.scopes.no_duplicates()
        &&& self.token.wf()
    }

    /// The credential with the repeats taken out of its scopes.
    pub open spec fn normalized(self) -> PackedClientView {
        PackedClientView {
            scopes: spec_unique(self.scopes),
            token: self.token.normalized(),
            ..self
        }
    }
}

/// A credential without repeats in its scopes is well-formed, and a
/// well-formed one has no repeats to take out.
pub proof fn lemma_normalized(client: PackedClientView)
    ensures
        client.normalized().wf(),
        client.wf() ==> client.normalized() == client,
{
    lemma_unique(client.scopes);
    lemma_unique(client.token.scopes);
    if client.wf() {
        lemma_unique_of_distinct(client.scopes);
        lemma_unique_of_distinct(client.token.scopes);
    }
}

/// Copies a list of texts.
pub fn clone_texts(texts: &Vec<String>) -> (copy: Vec<String>)
    ensures
        copy.deep_view() == texts.deep_view(),
{
    let mut copy: Vec<String> = Vec::new();
    let mut i: usize = 0;
    while i < texts.len()
        invariant
            i <= texts.len(),
            copy.len() == i,
            forall|j: int| 0 <= j < i ==> copy[j]@ == texts[j]@,
        decreases texts.len() - i,
    {
        copy.push(texts[i].clone());
        i += 1;
    }
    assert(copy.deep_view() =~= texts.deep_view());
    copy
}

/// Copies an optional text.
pub fn clone_opt_text(text: &Option<String>) -> (copy: Option<String>)
    ensures
        copy.deep_view() == text.deep_view(),
{
    match text {
        Some(s) => Some(s.clone()),
        None => None,
    }
}

impl Token {
    /// The token of a client that has none yet: empty, and due for renewal
    /// from second `now` on.
    pub fn blank(now: i64) -> (token: Token)
        ensures
            token@ == (TokenView {
                access_token: Seq::empty(),
                refresh_token: None,
                expires_in: 0,
                expires_at: Some(now),
                scopes: Seq::empty(),
            }),
    {
        let token = Token {
            access_token: String::new(),
            refresh_token: None,
            expires_in: 0,
            expires_at: Some(now),
            scopes: Vec::new(),
        };
        assert(token.scopes.deep_view() =~= Seq::<Seq<char>>::empty());
        token
    }

    pub fn clone(&self) -> (copy: Token)
        ensures
            copy@ == self@,
    {
        Token {
            access_token: self.access_token.clone(),
            refresh_token: clone_opt_text(&self.refresh_token),
            expires_in: self.expires_in,
            expires_at: self.expires_at,
            scopes: clone_texts(&self.scopes),
        }
    }

    /// The token with the repeats taken out of its scopes.
    pub fn normalized(self) -> (token: Token)
        ensures
            token@ == self@.normalized(),
            token@.wf(),
    {
        proof {
            lemma_unique(self.scopes.deep_view());
        }
        Token {
            access_token: self.access_token,
            refresh_token: self.refresh_token,
            expires_in: self.expires_in,
            expires_at: self.expires_at,
            scopes: unique_texts(self.scopes),
        }
    }

    /// Whether the token is due for renewal at second `now`.
    pub fn is_expired(&self, now: i64) -> (expired: bool)
        ensures
            expired == self@.expired_at(now as int),
    {
        match self.expires_at {
            Some(t) => now >= t,
            None => true,
        }
    }
}

impl PackedClient {
    /// Packs what a client holds for the user `user_id` at second `now`. A
    /// client without a secret is packed with an empty one, and a client
    /// without a token with a blank one. Scopes are sets: repeats are left
    /// out.
    pub fn pack(
        user_id: String,
        client_id: String,
        client_secret: Option<String>,
        redirect_uri: String,
        scopes: Vec<String>,
        token: Option<Token>,
        now: i64,
    ) -> (packed: PackedClient)
        ensures
            packed@ == (PackedClientView {
                client_id: client_id@,
                client_secret: match client_secret {
                    Some(secret) => secret@,
                    None => Seq::empty(),
                },
                user_id: user_id@,
                redirect_uri: redirect_uri@,
                scopes: spec_unique(scopes.deep_view()),
                token: match token {
                    Some(held) => held@.normalized(),
                    None => TokenView {
                        access_token: Seq::empty(),
                        refresh_token: None,
                        expires_in: 0,
                        expires_at: Some(now),
                        scopes: Seq::empty(),
                    },
                },
            }),
            packed@.wf(),
    {
        let client_secret = match client_secret {
            Some(secret) => secret,
            None => String::new(),
        };
        let token = match token {
            Some(held) => held.normalized(),
            None => Token::blank(now),
        };
        proof {
            lemma_unique(scopes.deep_view());
        }
        PackedClient {
            client_id,
            client_secret,
            user_id,
            redirect_uri,
            scopes: unique_texts(scopes),
            token,
        }
    }

    /// The credential with the repeats taken out of its scopes. A
    /// credential whose scopes hold nothing twice stays as it is.
    pub fn normalized(self) -> (client: PackedClient)
        ensures
            client@ == self@.normalized(),
            client@.wf(),
            self@.wf() ==> client@ == self@,
    {
        proof {
            lemma_normalized(self@);
        }
        PackedClient {
            client_id: self.client_id,
            client_secret: self.client_secret,
            user_id: self.user_id,
            redirect_uri: self.redirect_uri,
            scopes: unique_texts(self.scopes),
            token: self.token.normalized(),
        }
    }

    pub fn clone(&self) -> (copy: PackedClient)
        ensures
            copy@ == self@,
    {
        PackedClient {
            client_id: self.client_id.clone(),
            client_secret: self.client_secret.clone(),
            user_id: self.user_id.clone(),
            redirect_uri: self.redirect_uri.clone(),
            scopes: clone_texts(&self.scopes),
            token: self.token.clone(),
        }
    }
}

} // verus!
