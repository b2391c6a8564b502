//! The claim set carried by a session token, and the closed identifier
//! enumerations inside it.
//!
//! Service and scope identifiers are closed enumerations with an
//! explicit `Unknown` arm carrying the raw identifier, so that a token
//! minted by a newer deployment round-trips through this one without
//! losing information.

use vstd::prelude::*;

use crate::wire::is_ident_char;

verus! {

/// A service that issues or accepts session tokens.
#[derive(Debug, Clone)]
pub enum Service {
    /// This platform.
    StarHavenPlatform,
    /// The platform's build-cache sibling service.
    StarHavenSccache,
    /// A service unknown to this deployment; the raw identifier is kept.
    Unknown(String),
}

/// Specification-level mirror of [`Service`].
pub enum ServiceView {
    StarHavenPlatform,
    StarHavenSccache,
    Unknown(Seq<char>),
}

impl View for Service {
    type V = ServiceView;

    open spec fn view(&self) -> ServiceView {
        match self {
            Service::StarHavenPlatform => ServiceView::StarHavenPlatform,
            Service::StarHavenSccache => ServiceView::StarHavenSccache,
            Service::Unknown(raw) => ServiceView::Unknown(raw@),
        }
    }
}

impl DeepView for Service {
    type V = ServiceView;

    open spec fn deep_view(&self) -> ServiceView {
        self@
    }
}

/// An action a session token can permit.
#[derive(Debug, Clone)]
pub enum Scope {
    /// Can create draft mods.
    CreateMod,
    /// Can publish mods that they have created.
    PublishMod,
    /// Can act as an author on every mod.
    AdminAuthorAllMods,
    /// A scope unknown to this deployment; the raw identifier is kept.
    Unknown(String),
}

/// Specification-level mirror of [`Scope`].
pub enum ScopeView {
    CreateMod,
    PublishMod,
    AdminAuthorAllMods,
    Unknown(Seq<char>),
}

impl View for Scope {
    type V = ScopeView;

    open spec fn view(&self) -> ScopeView {
        match self {
            Scope::CreateMod => ScopeView::CreateMod,
            Scope::PublishMod => ScopeView::PublishMod,
            Scope::AdminAuthorAllMods => ScopeView::AdminAuthorAllMods,
            Scope::Unknown(raw) => ScopeView::Unknown(raw@),
        }
    }
}

impl DeepView for Scope {
    type V = ScopeView;

    open spec fn deep_view(&self) -> ScopeView {
        self@
    }
}

/// The wire identifier of a service.
pub open spec fn service_name(v: ServiceView) -> Seq<char> {
    match v {
        ServiceView::StarHavenPlatform => "star_haven_platform"@,
        ServiceView::StarHavenSccache => "star_haven_sccache"@,
        ServiceView::Unknown(raw) => raw,
    }
}

/// The service a wire identifier denotes.
pub open spec fn service_of_name(n: Seq<char>) -> ServiceView {
    if n == "star_haven_platform"@ {
        ServiceView::StarHavenPlatform
    } else if n == "star_haven_sccache"@ {
        ServiceView::StarHavenSccache
    } else {
        ServiceView::Unknown(n)
    }
}

/// The wire identifier of a scope.
pub open spec fn scope_name(v: ScopeView) -> Seq<char> {
    match v {
        ScopeView::CreateMod => "create_mod"@,
        ScopeView::PublishMod => "publish_mod"@,
        ScopeView::AdminAuthorAllMods => "admin_author_all_mods"@,
        ScopeView::Unknown(raw) => raw,
    }
}

/// The scope a wire identifier denotes.
pub open spec fn scope_of_name(n: Seq<char>) -> ScopeView {
    if n == "create_mod"@ {
        ScopeView::CreateMod
    } else if n == "publish_mod"@ {
        ScopeView::PublishMod
    } else if n == "admin_author_all_mods"@ {
        ScopeView::AdminAuthorAllMods
    } else {
        ScopeView::Unknown(n)
    }
}

/// All characters of a wire identifier are in the identifier set.
pub open spec fn all_ident(n: Seq<char>) -> bool {
    forall|i: int| 0 <= i < n.len() ==> is_ident_char(n[i])
}

/// A service value that survives a round trip through its wire
/// identifier: its name is in the identifier character set, and mapping
/// the name back yields the value itself (an unknown identifier may not
/// shadow a known one).
pub open spec fn wf_service(v: ServiceView) -> bool {
    all_ident(service_name(v)) && service_of_name(service_name(v)) == v
}

/// Like [`wf_service`], for scopes.
pub open spec fn wf_scope(v: ScopeView) -> bool {
    all_ident(scope_name(v)) && scope_of_name(scope_name(v)) == v
}

/// Law: reading a service identifier off the wire and writing it back
/// loses nothing — an unknown identifier survives as itself, so a token
/// minted by a newer deployment keeps its audience through this one.
pub proof fn lemma_service_of_name_wf(n: Seq<char>)
    requires
        all_ident(n),
    ensures
        wf_service(service_of_name(n)),
        service_name(service_of_name(n)) == n,
{
}

/// Law: as [`lemma_service_of_name_wf`], for scope identifiers.
pub proof fn lemma_scope_of_name_wf(n: Seq<char>)
    requires
        all_ident(n),
    ensures
        wf_scope(scope_of_name(n)),
        scope_name(scope_of_name(n)) == n,
{
}

/// The known service and scope values are well formed.
pub proof fn lemma_known_values_wf()
    ensures
        wf_service(ServiceView::StarHavenPlatform),
        wf_service(ServiceView::StarHavenSccache),
        wf_scope(ScopeView::CreateMod),
        wf_scope(ScopeView::PublishMod),
        wf_scope(ScopeView::AdminAuthorAllMods),
{
    reveal_strlit("star_haven_platform");
    reveal_strlit("star_haven_sccache");
    reveal_strlit("create_mod");
    reveal_strlit("publish_mod");
    reveal_strlit("admin_author_all_mods");
}

/// Maps a raw wire identifier to the service it denotes.
pub fn service_from_name(n: String) -> (r: Service)
    ensures
        r@ == service_of_name(n@),
{
    if n == "star_haven_platform".to_owned() {
        Service::StarHavenPlatform
    } else if n == "star_haven_sccache".to_owned() {
        Service::StarHavenSccache
    } else {
        Service::Unknown(n)
    }
}

/// Maps a raw wire identifier to the scope it denotes.
pub fn scope_from_name(n: String) -> (r: Scope)
    ensures
        r@ == scope_of_name(n@),
{
    if n == "create_mod".to_owned() {
        Scope::CreateMod
    } else if n == "publish_mod".to_owned() {
        Scope::PublishMod
    } else if n == "admin_author_all_mods".to_owned() {
        Scope::AdminAuthorAllMods
    } else {
        Scope::Unknown(n)
    }
}

/// Whether two scopes are the same grant.
pub fn scope_eq(a: &Scope, b: &Scope) -> (r: bool)
    ensures
        r == (a@ == b@),
{
    match (a, b) {
        (Scope::CreateMod, Scope::CreateMod) => true,
        (Scope::PublishMod, Scope::PublishMod) => true,
        (Scope::AdminAuthorAllMods, Scope::AdminAuthorAllMods) => true,
        (Scope::Unknown(x), Scope::Unknown(y)) => *x == *y,
        _ => false,
    }
}

/// A deserialised session token: who the bearer is, when the token was
/// minted and expires, which services accept it, and what it permits.
#[derive(Debug, Clone)]
pub struct Claims {
    /// Subject: the user that this token represents.
    pub sub: u128,
    /// Expiry: when the token becomes invalid, in Unix seconds.
    pub exp: u64,
    /// When the token was issued, in Unix seconds.
    pub iat: u64,
    /// Audience: the services that this token is intended for.
    pub aud: Vec<Service>,
    /// Issuer: the service that issued this token.
    pub iss: Service,
    /// Actions that this token allows one to take.
    pub scopes: Vec<Scope>,
}

/// Specification-level mirror of [`Claims`].
#[verifier::ext_equal]
pub struct ClaimsView {
    pub sub: u128,
    pub exp: u64,
    pub iat: u64,
    pub aud: Seq<ServiceView>,
    pub iss: ServiceView,
    pub scopes: Seq<ScopeView>,
}

impl View for Claims {
    type V = ClaimsView;

    open spec fn view(&self) -> ClaimsView {
        ClaimsView {
            sub: self.sub,
            exp: self.exp,
            iat: self.iat,
            aud: self.aud.deep_view(),
            iss: self.iss@,
            scopes: self.scopes.deep_view(),
        }
    }
}

impl ClaimsView {
    /// Every identifier in the claim set survives its wire round trip.
    pub open spec fn wf(self) -> bool {
        &&& forall|i: int| 0 <= i < self.aud.len() ==> wf_service(#[trigger] self.aud[i])
        &&& wf_service(self.iss)
        &&& forall|i: int| 0 <= i < self.scopes.len() ==> wf_scope(#[trigger] self.scopes[i])
    }
}

} // verus!
