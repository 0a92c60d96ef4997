use vstd::prelude::*;

verus! {

/// OAuth client credentials kept in `login.json`.
pub struct Login {
    pub client_id: String,
    pub client_secret: String,
    pub state: String,
}

impl Login {
    /// A login is unusable when any of its three fields is empty.
    pub open spec fn spec_empty(&self) -> bool {
        self.client_secret@.len() == 0 || self.client_id@.len() == 0 || self.state@.len() == 0
    }

    /// Whether any of the credentials is missing.
    pub fn empty(&self) -> (r: bool)
        ensures
            r == self.spec_empty(),
    {
        self.client_secret.as_str().is_empty() || self.client_id.as_str().is_empty()
            || self.state.as_str().is_empty()
    }

    /// The login written to a fresh `login.json`: every field empty.
    pub fn blank() -> (r: Self)
        ensures
            r.client_id@ == Seq::<char>::empty(),
            r.client_secret@ == Seq::<char>::empty(),
            r.state@ == Seq::<char>::empty(),
            r.spec_empty(),
    {
        Login { client_id: String::new(), client_secret: String::new(), state: String::new() }
    }

    /// The query of the authorization request, in the order it is sent.
    pub open spec fn authorize_query_of(&self) -> Seq<(Seq<char>, Seq<char>)> {
        seq![
            ("client_id"@, self.client_id@),
            ("response_type"@, "code"@),
            ("scope"@, "readpub readpriv"@),
            ("redirect_uri"@, "https://api.picarto.tv/oauth-eg/redirect.php"@),
            ("state"@, self.state@),
        ]
    }

    /// The query sent with the authorization request of this login.
    pub fn authorize_query(&self) -> (r: Vec<(String, String)>)
        ensures
            pair_views(r@) == self.authorize_query_of(),
    {
        let mut query: Vec<(String, String)> = Vec::new();
        query.push((String::from_str("client_id"), self.client_id.clone()));
        query.push((String::from_str("response_type"), String::from_str("code")));
        query.push((String::from_str("scope"), String::from_str("readpub readpriv")));
        query.push(
            (
                String::from_str("redirect_uri"),
                String::from_str("https://api.picarto.tv/oauth-eg/redirect.php"),
            ),
        );
        query.push((String::from_str("state"), self.state.clone()));
        assert(pair_views(query@) =~= self.authorize_query_of());
        query
    }
}

/// The text of each pair of strings.
pub open spec fn pair_views(pairs: Seq<(String, String)>) -> Seq<(Seq<char>, Seq<char>)> {
    pairs.map_values(|p: (String, String)| (p.0@, p.1@))
}

/// The address the authorization request is sent to.
pub open spec fn authorize_url_of() -> Seq<char> {
    "https://oauth.picarto.tv/authorize"@
}

/// The address the authorization request is sent to.
pub fn authorize_url() -> (r: String)
    ensures
        r@ == authorize_url_of(),
{
    String::from_str("https://oauth.picarto.tv/authorize")
}

/// The authorization query sends the client id and the state of the login
/// unchanged, asks for a code, and names five parameters.
pub proof fn lemma_authorize_query_carries_login(login: Login)
    ensures
        login.authorize_query_of().len() == 5,
        login.authorize_query_of()[0] == ("client_id"@, login.client_id@),
        login.authorize_query_of()[1] == ("response_type"@, "code"@),
        login.authorize_query_of()[4] == ("state"@, login.state@),
{
}

} // verus!
