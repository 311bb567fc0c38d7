//! The authentication connector's decision core: turning the attributes of
//! a validated assertion into a claim, binding the callback to the state it
//! was issued for, and shaping the callback location.
//!
//! Fetching, parsing and signature-checking the assertion itself is the
//! surrounding I/O layer's work; what arrives here are plain attribute
//! pairs.

use vstd::prelude::*;

use crate::claim::NebulaClaim;
use crate::claim::Role;
use crate::claim::spec_lookup;
use crate::path_text::str_eq;
use crate::token::clone_attributes;

verus! {

/// What the authentication handshake can report.
#[derive(Debug)]
pub enum Error {
    InvalidSignature,
    Expired,
    AttributeMissing { name: String },
    StateMismatch,
    Anyhow(String),
}

/// Where a claim's workspace name comes from: fixed by configuration, or
/// read from an assertion attribute.
pub enum WorkspaceResolution {
    Static { name: String },
    FromAttribute { attribute: String },
}

/// The predicate that makes a claim an admin: the named attribute carries
/// exactly the given value.
pub struct AdminRoleConfig {
    pub attribute: String,
    pub value: String,
}

/// How assertion attributes populate a claim.
pub struct AttributesConfig {
    pub gid_attribute: String,
    pub workspace: WorkspaceResolution,
    pub admin_role: AdminRoleConfig,
}

/// The attribute pairs of an assertion, as character-sequence pairs.
pub open spec fn attrs_view(attributes: &Vec<(String, String)>) -> Seq<(Seq<char>, Seq<char>)> {
    attributes@.map_values(|p: (String, String)| (p.0@, p.1@))
}

/// Looks a name up among the assertion's attribute pairs.
fn lookup_attribute<'a>(attributes: &'a Vec<(String, String)>, name: &str) -> (r: Option<
    &'a String,
>)
    ensures
        match r {
            Some(v) => spec_lookup(attrs_view(attributes), name@) == Some(v@),
            None => spec_lookup(attrs_view(attributes), name@) is None,
        },
{
    let ghost pairs = attrs_view(attributes);
    proof {
        assert(pairs.skip(0) =~= pairs);
    }
    let mut i: usize = 0;
    while i < attributes.len()
        invariant
            0 <= i <= attributes.len(),
            pairs == attrs_view(attributes),
            spec_lookup(pairs, name@) == spec_lookup(pairs.skip(i as int), name@),
        decreases attributes.len() - i,
    {
        proof {
            assert(pairs[i as int] == (attributes@[i as int].0@, attributes@[i as int].1@));
            assert(pairs.skip(i as int)[0] == pairs[i as int]);
        }
        if str_eq(attributes[i].0.as_str(), name) {
            return Some(&attributes[i].1);
        }
        proof {
            assert(pairs.skip(i as int).skip(1) =~= pairs.skip(i + 1));
        }
        i = i + 1;
    }
    proof {
        assert(pairs.skip(i as int) =~= Seq::<(Seq<char>, Seq<char>)>::empty());
    }
    None
}

/// Builds the claim a validated assertion's attributes denote: `gid` and,
/// in attribute mode, the workspace name must be present; the role is
/// `Admin` exactly when the admin predicate's attribute carries its value;
/// every attribute pair is carried into the claim.
pub fn extract_claim(config: &AttributesConfig, attributes: &Vec<(String, String)>) -> (r: Result<
    NebulaClaim,
    Error,
>)
    ensures
        match r {
            Ok(ref c) => {
                &&& spec_lookup(attrs_view(attributes), config.gid_attribute@) == Some(c.gid@)
                &&& (match config.workspace {
                    WorkspaceResolution::Static { ref name } => c.workspace_name@ == name@,
                    WorkspaceResolution::FromAttribute { ref attribute } => spec_lookup(
                        attrs_view(attributes),
                        attribute@,
                    ) == Some(c.workspace_name@),
                })
                &&& (c.role == Role::Admin) == (spec_lookup(
                    attrs_view(attributes),
                    config.admin_role.attribute@,
                ) == Some(config.admin_role.value@))
                &&& c.spec_attrs() == attrs_view(attributes)
            },
            Err(Error::AttributeMissing { ref name }) => (name@ == config.gid_attribute@
                && spec_lookup(attrs_view(attributes), config.gid_attribute@) is None) || (
            match config.workspace {
                WorkspaceResolution::Static { .. } => false,
                WorkspaceResolution::FromAttribute { ref attribute } => name@ == attribute@
                    && spec_lookup(attrs_view(attributes), attribute@) is None,
            }),
            Err(_) => false,
        },
{
    let gid = match lookup_attribute(attributes, config.gid_attribute.as_str()) {
        Some(v) => v.clone(),
        None => {
            return Err(Error::AttributeMissing { name: config.gid_attribute.clone() });
        },
    };
    let workspace_name = match &config.workspace {
        WorkspaceResolution::Static { name } => name.clone(),
        WorkspaceResolution::FromAttribute { attribute } => {
            match lookup_attribute(attributes, attribute.as_str()) {
                Some(v) => v.clone(),
                None => {
                    return Err(Error::AttributeMissing { name: attribute.clone() });
                },
            }
        },
    };
    let role = match lookup_attribute(attributes, config.admin_role.attribute.as_str()) {
        Some(v) => if str_eq(v.as_str(), config.admin_role.value.as_str()) {
            Role::Admin
        } else {
            Role::Member
        },
        None => Role::Member,
    };
    Ok(
        NebulaClaim {
            gid,
            workspace_name,
            role,
            attributes: clone_attributes(attributes),
        },
    )
}

/// Binds a callback to the state its request carried: anything else is a
/// replay or a cross-request mix-up.
pub fn check_state(expected: &str, got: &str) -> (r: Result<(), Error>)
    ensures
        match r {
            Ok(()) => expected@ == got@,
            Err(Error::StateMismatch) => expected@ != got@,
            Err(_) => false,
        },
{
    if str_eq(expected, got) {
        Ok(())
    } else {
        Err(Error::StateMismatch)
    }
}

/// The text without leading slashes.
pub open spec fn trim_front(s: Seq<char>) -> Seq<char>
    decreases s.len(),
{
    if s.len() > 0 && s[0] == '/' {
        trim_front(s.skip(1))
    } else {
        s
    }
}

/// The text without trailing slashes.
pub open spec fn trim_back(s: Seq<char>) -> Seq<char>
    decreases s.len(),
{
    if s.len() > 0 && s[s.len() - 1] == '/' {
        trim_back(s.drop_last())
    } else {
        s
    }
}

/// The text without leading or trailing slashes.
pub open spec fn trim_slashes(s: Seq<char>) -> Seq<char> {
    trim_back(trim_front(s))
}

fn trim_slashes_str(s: &str) -> (r: String)
    ensures
        r@ == trim_slashes(s@),
{
    let n = s.unicode_len();
    let mut a: usize = 0;
    proof {
        assert(s@.skip(0) =~= s@);
    }
    while a < n && s.get_char(a) == '/'
        invariant
            0 <= a <= n,
            n == s@.len(),
            trim_front(s@) == trim_front(s@.skip(a as int)),
        decreases n - a,
    {
        proof {
            assert(s@.skip(a as int).skip(1) =~= s@.skip(a + 1));
        }
        a = a + 1;
    }
    proof {
        if a < n {
            assert(trim_front(s@) == s@.skip(a as int));
        } else {
            assert(s@.skip(a as int) =~= Seq::<char>::empty());
            assert(trim_front(s@) =~= s@.skip(a as int));
        }
    }
    let mut b: usize = n;
    proof {
        assert(s@.skip(a as int).take(n - a) =~= s@.skip(a as int));
    }
    while b > a && s.get_char(b - 1) == '/'
        invariant
            a <= b <= n,
            n == s@.len(),
            trim_front(s@) == s@.skip(a as int),
            trim_back(s@.skip(a as int)) == trim_back(s@.skip(a as int).take(b - a)),
        decreases b,
    {
        proof {
            assert(s@.skip(a as int).take(b - a).drop_last() =~= s@.skip(a as int).take(
                b - 1 - a,
            ));
            assert(s@.skip(a as int).take(b - a).last() == s@[b - 1]);
        }
        b = b - 1;
    }
    proof {
        let t = s@.skip(a as int).take(b - a);
        if b > a {
            assert(t.last() == s@[b - 1]);
            assert(trim_back(t) == t);
        } else {
            assert(t =~= Seq::<char>::empty());
            assert(trim_back(t) == t);
        }
        assert(s@.skip(a as int).take(b - a) =~= s@.subrange(a as int, b as int));
    }
    s.substring_char(a, b).to_owned()
}

/// The callback location the handshake redirects to: the base, then the
/// trimmed path prefix when one is configured, then the callback segment.
pub fn callback_redirect_uri(base_url: &str, path_prefix: Option<&str>) -> (r: String)
    ensures
        match path_prefix {
            Some(p) => r@ == base_url@ + seq!['/'] + trim_slashes(p@) + "/callback/saml"@,
            None => r@ == base_url@ + "/callback/saml"@,
        },
{
    match path_prefix {
        Some(p) => {
            let trimmed = trim_slashes_str(p);
            let mut r = base_url.to_owned();
            r.append("/");
            r.append(trimmed.as_str());
            r.append("/callback/saml");
            proof {
                reveal_strlit("/");
                assert(base_url@ + "/"@ + trimmed@ + "/callback/saml"@ =~= base_url@ + seq!['/']
                    + trim_slashes(p@) + "/callback/saml"@);
            }
            r
        },
        None => {
            let mut r = base_url.to_owned();
            r.append("/callback/saml");
            r
        },
    }
}

} // verus!
