use vstd::prelude::*;
use vstd::string::StringExecFns;

verus! {

/// The address of the service where none is given.
pub open spec fn default_api_url() -> Seq<char> {
    "https://api.openai.com/v1/"@
}

/// The text of an optional string.
pub open spec fn text_of(s: Option<String>) -> Option<Seq<char>> {
    match s {
        Some(t) => Some(t@),
        None => None,
    }
}

/// The key that requests are signed with, and the organization that they are
/// made for.
#[derive(Debug, Clone)]
pub struct Auth {
    pub api_key: String,
    pub organization: Option<String>,
}

impl Auth {
    /// Credentials with a key and no organization.
    pub fn new(api_key: &str) -> (auth: Auth)
        ensures
            auth.api_key@ == api_key@,
            auth.organization is None,
    {
        Auth { api_key: api_key.to_owned(), organization: None }
    }

    /// The same credentials for `organization`.
    pub fn with_organization(self, organization: &str) -> (auth: Self)
        ensures
            auth.api_key == self.api_key,
            text_of(auth.organization) == Some(organization@),
    {
        let mut this = self;
        this.organization = Some(organization.to_owned());
        this
    }

    /// Credentials from what the environment holds: the key, which must be
    /// there, and the organization.
    pub fn from_env_values(api_key: Option<String>, organization: Option<String>) -> (r: Result<
        Self,
        String,
    >)
        ensures
            match api_key {
                Some(key) => r == Ok::<Self, String>(Auth { api_key: key, organization }),
                None => r matches Err(e) && e@ == "Missing OPENAI_API_KEY"@,
            },
    {
        match api_key {
            Some(api_key) => Ok(Auth { api_key, organization }),
            None => Err("Missing OPENAI_API_KEY".to_owned()),
        }
    }
}

/// What it takes to reach the service: who asks, and where.
#[derive(Debug, Clone)]
pub struct Credentials {
    pub auth: Auth,
    pub api_url: String,
}

impl Credentials {
    /// Credentials with a key and the address of the service.
    pub fn new(api_key: &str, api_url: &str) -> (c: Self)
        ensures
            c.auth.api_key@ == api_key@,
            c.auth.organization is None,
            c.api_url@ == api_url@,
    {
        Credentials { auth: Auth::new(api_key), api_url: api_url.to_owned() }
    }

    /// The same credentials for `organization`.
    pub fn with_organization(self, organization: &str) -> (c: Self)
        ensures
            c.auth.api_key == self.auth.api_key,
            c.api_url == self.api_url,
            text_of(c.auth.organization) == Some(organization@),
    {
        let mut this = self;
        this.auth.organization = Some(organization.to_owned());
        this
    }

    /// Credentials from what the environment holds: the key, which must be
    /// there, the address, which has a default, and the organization.
    pub fn from_env_values(
        api_key: Option<String>,
        api_url: Option<String>,
        organization: Option<String>,
    ) -> (r: Result<Self, String>)
        ensures
            match api_key {
                Some(key) => r matches Ok(c) && c.auth == (Auth { api_key: key, organization })
                    && c.api_url@ == match api_url {
                    Some(url) => url@,
                    None => default_api_url(),
                },
                None => r matches Err(e) && e@ == "Missing OPENAI_API_KEY"@,
            },
    {
        match api_key {
            Some(api_key) => {
                let api_url = match api_url {
                    Some(url) => url,
                    None => "https://api.openai.com/v1/".to_owned(),
                };
                Ok(Credentials { auth: Auth { api_key, organization }, api_url })
            },
            None => Err("Missing OPENAI_API_KEY".to_owned()),
        }
    }
}

/// `ureq::Agent`, which carries requests. It is carried through; nothing of
/// what is inside is known.
#[verifier::external_type_specification]
#[verifier::external_body]
pub struct ExAgent(ureq::Agent);

/// `ureq::Proxy`, the parsed address of a proxy. It is carried from the
/// parser to the agent; nothing of what is inside is known.
#[verifier::external_type_specification]
#[verifier::external_body]
pub struct ExProxy(ureq::Proxy);

/// `Clone` of `ureq::Agent`: a second handle on the same agent. Nothing is
/// claimed of it.
pub assume_specification[ <ureq::Agent as Clone>::clone ](agent: &ureq::Agent) -> ureq::Agent;

/// Whether `ureq::Proxy::new` takes `proxy` as the address of a proxy.
pub uninterp spec fn proxy_accepted(proxy: Seq<char>) -> bool;

/// Calls `ureq::Proxy::new` on `proxy` and keeps the proxy where the text was
/// taken. The contract names whether it was, and says nothing of which texts
/// are.
#[verifier::external_body]
fn parse_proxy(proxy: &str) -> (parsed: Option<ureq::Proxy>)
    ensures
        parsed is Some == proxy_accepted(proxy@),
{
    ureq::Proxy::new(proxy).ok()
}

/// An agent as `ureq::AgentBuilder::new().build()` makes it: default settings
/// and no proxy. Nothing is claimed of it.
#[verifier::external_body]
fn plain_agent() -> ureq::Agent {
    ureq::AgentBuilder::new().build()
}

/// An agent as `ureq::AgentBuilder::new().proxy(proxy).build()` makes it.
/// Nothing is claimed of it.
#[verifier::external_body]
fn proxy_agent(proxy: ureq::Proxy) -> ureq::Agent {
    ureq::AgentBuilder::new().proxy(proxy).build()
}

/// The proxy that the environment names: what `http_proxy` holds where it is
/// set, else what `https_proxy` holds.
pub open spec fn env_proxy(http_proxy: Option<&str>, https_proxy: Option<&str>) -> Option<
    Seq<char>,
> {
    match (http_proxy, https_proxy) {
        (Some(p), _) => Some(p@),
        (None, Some(p)) => Some(p@),
        (None, None) => None,
    }
}

/// How the requests of a client travel: the agent that carries them, and the
/// proxy that the agent was made to use. The two are set together.
#[derive(Debug, Clone)]
pub struct Transport {
    proxy: Option<String>,
    agent: ureq::Agent,
}

impl Transport {
    /// The proxy that the agent was made to use, as text.
    pub closed spec fn proxy_text(&self) -> Option<Seq<char>> {
        text_of(self.proxy)
    }

    /// The agent that is held.
    pub closed spec fn held_agent(&self) -> ureq::Agent {
        self.agent
    }

    /// A plain agent, without a proxy.
    pub fn direct() -> (t: Transport)
        ensures
            t.proxy_text() is None,
    {
        Transport { proxy: None, agent: plain_agent() }
    }

    /// An agent that goes through `proxy`, where `proxy` is the address of
    /// a proxy.
    pub fn through(proxy: &str) -> (t: Option<Transport>)
        ensures
            match t {
                Some(t) => proxy_accepted(proxy@) && t.proxy_text() == Some(proxy@),
                None => !proxy_accepted(proxy@),
            },
    {
        match parse_proxy(proxy) {
            Some(parsed) => Some(
                Transport { proxy: Some(proxy.to_owned()), agent: proxy_agent(parsed) },
            ),
            None => None,
        }
    }

    /// The agent that is held, not a copy and not a new one.
    pub fn agent(&self) -> (agent: &ureq::Agent)
        ensures
            *agent == self.held_agent(),
    {
        &self.agent
    }

    /// The proxy that the agent was made to use.
    pub fn proxy(&self) -> (proxy: Option<&str>)
        ensures
            match proxy {
                Some(p) => self.proxy_text() == Some(p@),
                None => self.proxy_text() is None,
            },
    {
        match &self.proxy {
            Some(p) => Some(p.as_str()),
            None => None,
        }
    }
}

/// A client of the service: credentials, the address, and the agent that
/// carries the requests.
#[derive(Debug, Clone)]
pub struct OpenAI {
    pub auth: Auth,
    pub api_url: String,
    /// The version that requests name; empty where they name none.
    pub api_version: String,
    /// The agent that carries the requests, and its proxy.
    pub transport: Transport,
}

/// What a client holds, apart from its agent.
pub struct ClientView {
    pub api_key: Seq<char>,
    pub organization: Option<Seq<char>>,
    pub api_url: Seq<char>,
    pub api_version: Seq<char>,
    /// The proxy that the agent was made to use.
    pub proxy: Option<Seq<char>>,
}

impl View for OpenAI {
    type V = ClientView;

    open spec fn view(&self) -> ClientView {
        ClientView {
            api_key: self.auth.api_key@,
            organization: text_of(self.auth.organization),
            api_url: self.api_url@,
            api_version: self.api_version@,
            proxy: self.transport.proxy_text(),
        }
    }
}

impl OpenAI {
    /// A client without a proxy.
    pub fn new(auth: Auth, api_url: &str) -> (client: Self)
        ensures
            client@ == (ClientView {
                api_key: auth.api_key@,
                organization: text_of(auth.organization),
                api_url: api_url@,
                api_version: Seq::empty(),
                proxy: None,
            }),
            client.auth == auth,
    {
        OpenAI {
            auth,
            api_url: api_url.to_owned(),
            api_version: String::new(),
            transport: Transport::direct(),
        }
    }

    /// A client without a proxy, for `credentials`.
    pub fn from_credentials(credentials: Credentials) -> (client: Self)
        ensures
            client@ == (ClientView {
                api_key: credentials.auth.api_key@,
                organization: text_of(credentials.auth.organization),
                api_url: credentials.api_url@,
                api_version: Seq::empty(),
                proxy: None,
            }),
            client.auth == credentials.auth,
            client.api_url == credentials.api_url,
    {
        OpenAI {
            auth: credentials.auth,
            api_url: credentials.api_url,
            api_version: String::new(),
            transport: Transport::direct(),
        }
    }

    /// A client from what the environment holds, as `Credentials` reads it.
    pub fn from_env_values(
        api_key: Option<String>,
        api_url: Option<String>,
        organization: Option<String>,
    ) -> (r: Result<Self, String>)
        ensures
            match api_key {
                Some(key) => r matches Ok(client) && client@ == (ClientView {
                    api_key: key@,
                    organization: text_of(organization),
                    api_url: match api_url {
                        Some(url) => url@,
                        None => default_api_url(),
                    },
                    api_version: Seq::empty(),
                    proxy: None,
                }),
                None => r matches Err(e) && e@ == "Missing OPENAI_API_KEY"@,
            },
    {
        match Credentials::from_env_values(api_key, api_url, organization) {
            Ok(credentials) => Ok(Self::from_credentials(credentials)),
            Err(e) => Err(e),
        }
    }

    /// A builder with nothing set.
    pub fn builder() -> (b: OpenAIBuilder)
        ensures
            b@ == BuilderView::empty(),
    {
        OpenAIBuilder::new()
    }

    /// The agent that this client holds.
    pub open spec fn held_agent(&self) -> ureq::Agent {
        self.transport.held_agent()
    }

    /// The agent that carries the requests of this client: the one that the
    /// client holds, not a copy and not a new one.
    pub fn agent(&self) -> (agent: &ureq::Agent)
        ensures
            *agent == self.held_agent(),
    {
        self.transport.agent()
    }

    /// The proxy that the agent was made to use.
    pub fn proxy(&self) -> (proxy: Option<&str>)
        ensures
            match proxy {
                Some(p) => self@.proxy == Some(p@),
                None => self@.proxy is None,
            },
    {
        self.transport.proxy()
    }

    /// The same client with an agent that goes through `proxy`.
    pub fn set_proxy(self, proxy: &str) -> (client: Self)
        requires
            proxy_accepted(proxy@),
        ensures
            client@ == (ClientView { proxy: Some(proxy@), ..self@ }),
            client.auth == self.auth,
            client.api_url == self.api_url,
            client.api_version == self.api_version,
    {
        let mut this = self;
        match Transport::through(proxy) {
            Some(transport) => {
                this.transport = transport;
            },
            None => {},
        }
        this
    }

    /// The same client with an agent that goes through `proxy`, where
    /// `proxy` is the address of a proxy; the client as it is, as an error,
    /// where it is not.
    pub fn try_set_proxy(self, proxy: &str) -> (r: Result<Self, Self>)
        ensures
            match r {
                Ok(client) => proxy_accepted(proxy@) && client@ == (ClientView {
                    proxy: Some(proxy@),
                    ..self@
                }) && client.auth == self.auth && client.api_url == self.api_url
                    && client.api_version == self.api_version,
                Err(client) => !proxy_accepted(proxy@) && client == self,
            },
    {
        if parse_proxy(proxy).is_some() {
            Ok(self.set_proxy(proxy))
        } else {
            Err(self)
        }
    }

    /// The same client with an agent that goes through the proxy that the
    /// environment names: `http_proxy` where it is set, else `https_proxy`.
    /// Where neither is set, or the one that counts is not the address of a
    /// proxy, the client stays as it is.
    pub fn use_env_proxy(self, http_proxy: Option<&str>, https_proxy: Option<&str>) -> (client:
        Self)
        ensures
            match env_proxy(http_proxy, https_proxy) {
                Some(p) if proxy_accepted(p) => client@ == (ClientView { proxy: Some(p), ..self@ })
                    && client.auth == self.auth && client.api_url == self.api_url
                    && client.api_version == self.api_version,
                _ => client == self,
            },
    {
        let proxy = match (http_proxy, https_proxy) {
            (Some(http_proxy), _) => Some(http_proxy),
            (_, Some(https_proxy)) => Some(https_proxy),
            _ => None,
        };
        match proxy {
            Some(proxy) => match self.try_set_proxy(proxy) {
                Ok(client) => client,
                Err(client) => client,
            },
            None => self,
        }
    }
}

/// The settings of a client, gathered one by one.
pub struct OpenAIBuilder {
    api_key: Option<String>,
    api_url: Option<String>,
    organization: Option<String>,
    use_proxy: bool,
    proxy: Option<String>,
}

/// What a builder holds.
pub struct BuilderView {
    pub api_key: Option<Seq<char>>,
    pub api_url: Option<Seq<char>>,
    pub organization: Option<Seq<char>>,
    pub use_proxy: bool,
    pub proxy: Option<Seq<char>>,
}

impl BuilderView {
    /// Nothing set.
    pub open spec fn empty() -> BuilderView {
        BuilderView { api_key: None, api_url: None, organization: None, use_proxy: false, proxy: None }
    }

    /// Whether a client can be built: a key is set, and the proxy, where one
    /// is set, is the address of a proxy.
    pub open spec fn builds(self) -> bool {
        &&& self.api_key is Some
        &&& self.proxy matches Some(p) ==> proxy_accepted(p)
    }

    /// The proxy of the client that is built, where the environment names
    /// `env`: the proxy that was set; without one, and where the environment
    /// was asked for, the proxy that it names, if that is the address of one.
    pub open spec fn built_proxy(self, env: Option<Seq<char>>) -> Option<Seq<char>> {
        match self.proxy {
            Some(p) => Some(p),
            None => match env {
                Some(p) if self.use_proxy && proxy_accepted(p) => Some(p),
                _ => None,
            },
        }
    }
}

impl View for OpenAIBuilder {
    type V = BuilderView;

    closed spec fn view(&self) -> BuilderView {
        BuilderView {
            api_key: text_of(self.api_key),
            api_url: text_of(self.api_url),
            organization: text_of(self.organization),
            use_proxy: self.use_proxy,
            proxy: text_of(self.proxy),
        }
    }
}

impl OpenAIBuilder {
    /// A builder with nothing set.
    pub fn new() -> (b: Self)
        ensures
            b@ == BuilderView::empty(),
    {
        OpenAIBuilder { api_key: None, api_url: None, organization: None, use_proxy: false, proxy: None }
    }

    /// Sets the key.
    pub fn api_key(self, api_key: &str) -> (b: Self)
        ensures
            b@ == (BuilderView { api_key: Some(api_key@), ..self@ }),
    {
        let mut this = self;
        this.api_key = Some(api_key.to_owned());
        this
    }

    /// Sets the address of the service.
    pub fn api_url(self, api_url: &str) -> (b: Self)
        ensures
            b@ == (BuilderView { api_url: Some(api_url@), ..self@ }),
    {
        let mut this = self;
        this.api_url = Some(api_url.to_owned());
        this
    }

    /// Sets the organization.
    pub fn organization(self, organization: &str) -> (b: Self)
        ensures
            b@ == (BuilderView { organization: Some(organization@), ..self@ }),
    {
        let mut this = self;
        this.organization = Some(organization.to_owned());
        this
    }

    /// Asks for the proxy that the environment names, for a client that is
    /// given no proxy of its own.
    pub fn use_env_proxy(self) -> (b: Self)
        ensures
            b@ == (BuilderView { use_proxy: true, ..self@ }),
    {
        let mut this = self;
        this.use_proxy = true;
        this
    }

    /// Sets the proxy.
    pub fn proxy(self, proxy: &str) -> (b: Self)
        ensures
            b@ == (BuilderView { proxy: Some(proxy@), ..self@ }),
    {
        let mut this = self;
        this.proxy = Some(proxy.to_owned());
        this
    }

    /// Fills the key, the address and the organization, each where it is not
    /// set yet, with what the environment holds for it.
    pub fn from_env_values(
        self,
        api_key: Option<String>,
        api_url: Option<String>,
        organization: Option<String>,
    ) -> (b: Self)
        ensures
            b@ == (BuilderView {
                api_key: if self@.api_key is None {
                    text_of(api_key)
                } else {
                    self@.api_key
                },
                api_url: if self@.api_url is None {
                    text_of(api_url)
                } else {
                    self@.api_url
                },
                organization: if self@.organization is None {
                    text_of(organization)
                } else {
                    self@.organization
                },
                ..self@
            }),
    {
        let mut this = self;
        if this.api_key.is_none() {
            this.api_key = api_key;
        }
        if this.api_url.is_none() {
            this.api_url = api_url;
        }
        if this.organization.is_none() {
            this.organization = organization;
        }
        this
    }

    /// Builds the client in an environment that names no proxy.
    pub fn build(self) -> (r: Result<OpenAI, String>)
        ensures
            built(self@, None, r),
    {
        self.build_with_env(None, None)
    }

    /// Builds the client. `http_proxy` and `https_proxy` are what the
    /// environment holds under these names; they count only where the
    /// builder was told to use them and was given no proxy of its own.
    pub fn build_with_env(self, http_proxy: Option<&str>, https_proxy: Option<&str>) -> (r: Result<
        OpenAI,
        String,
    >)
        ensures
            built(self@, env_proxy(http_proxy, https_proxy), r),
    {
        let api_key = match self.api_key {
            Some(api_key) => api_key,
            None => {
                return Err("API key is required".to_owned());
            },
        };
        let api_url = match self.api_url {
            Some(api_url) => api_url,
            None => "https://api.openai.com/v1/".to_owned(),
        };
        let auth = Auth { api_key, organization: self.organization };
        let client = OpenAI::new(auth, api_url.as_str());
        match self.proxy {
            Some(proxy) => match client.try_set_proxy(proxy.as_str()) {
                Ok(client) => Ok(client),
                Err(_) => Err("Invalid proxy".to_owned()),
            },
            None => if self.use_proxy {
                Ok(client.use_env_proxy(http_proxy, https_proxy))
            } else {
                Ok(client)
            },
        }
    }
}

/// Whether `r` is what building from `b` gives where the environment names
/// the proxy `env`: without a key, and with a proxy that is not the address
/// of one, an error that says so; else the client that `b` describes.
pub open spec fn built(b: BuilderView, env: Option<Seq<char>>, r: Result<OpenAI, String>) -> bool {
    match r {
        Ok(client) => {
            &&& b.builds()
            &&& Some(client@.api_key) == b.api_key
            &&& client@.organization == b.organization
            &&& client@.api_url == match b.api_url {
                Some(url) => url,
                None => default_api_url(),
            }
            &&& client@.api_version == Seq::<char>::empty()
            &&& client@.proxy == b.built_proxy(env)
        },
        Err(e) => {
            &&& !b.builds()
            &&& e@ == if b.api_key is None {
                "API key is required"@
            } else {
                "Invalid proxy"@
            }
        },
    }
}

} // verus!
