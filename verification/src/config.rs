//! Edge-service configuration: allowed CORS origins and the cookie
//! same-site policy, with the policy parsed from its configured name.

use vstd::prelude::*;

verus! {

/// A cookie same-site policy.
#[derive(Debug, Clone, Copy, PartialEq, Eq, Structural)]
pub enum SameSitePolicy {
    Lax,
    Strict,
    Unrestricted,
}

/// The configured same-site policy.
#[derive(Debug, Clone, Copy, PartialEq, Eq, Structural)]
pub struct SameSiteConfig(pub SameSitePolicy);

pub open spec fn lax_name() -> Seq<u8> {
    seq![76u8, 97u8, 120u8]
}

pub open spec fn strict_name() -> Seq<u8> {
    seq![83u8, 116u8, 114u8, 105u8, 99u8, 116u8]
}

pub open spec fn none_name() -> Seq<u8> {
    seq![78u8, 111u8, 110u8, 101u8]
}

impl SameSiteConfig {
    /// Parse a configured policy name, as UTF-8 bytes: exactly the names
    /// Lax, Strict and None are accepted.
    pub fn parse(name: &Vec<u8>) -> (r: Option<SameSiteConfig>)
        ensures
            r == (if name@ == lax_name() {
                Some(SameSiteConfig(SameSitePolicy::Lax))
            } else if name@ == strict_name() {
                Some(SameSiteConfig(SameSitePolicy::Strict))
            } else if name@ == none_name() {
                Some(SameSiteConfig(SameSitePolicy::Unrestricted))
            } else {
                None::<SameSiteConfig>
            }),
    {
        if name.len() == 3 && *name.get(0).unwrap() == 76 && *name.get(1).unwrap() == 97
            && *name.get(2).unwrap() == 120 {
            proof {
                assert(name@ =~= lax_name());
            }
            Some(SameSiteConfig(SameSitePolicy::Lax))
        } else if name.len() == 6 && *name.get(0).unwrap() == 83 && *name.get(1).unwrap() == 116
            && *name.get(2).unwrap() == 114 && *name.get(3).unwrap() == 105 && *name.get(4).unwrap()
            == 99 && *name.get(5).unwrap() == 116 {
            proof {
                assert(name@ =~= strict_name());
            }
            Some(SameSiteConfig(SameSitePolicy::Strict))
        } else if name.len() == 4 && *name.get(0).unwrap() == 78 && *name.get(1).unwrap() == 111
            && *name.get(2).unwrap() == 110 && *name.get(3).unwrap() == 101 {
            proof {
                assert(name@ =~= none_name());
            }
            Some(SameSiteConfig(SameSitePolicy::Unrestricted))
        } else {
            proof {
                assert(name@ != lax_name() && name@ != strict_name() && name@ != none_name()) by {
                    if name@ == lax_name() {
                        assert(name@.len() == 3 && name@[0] == 76 && name@[1] == 97 && name@[2]
                            == 120);
                    }
                    if name@ == strict_name() {
                        assert(name@.len() == 6 && name@[0] == 83 && name@[1] == 116 && name@[2]
                            == 114 && name@[3] == 105 && name@[4] == 99 && name@[5] == 116);
                    }
                    if name@ == none_name() {
                        assert(name@.len() == 4 && name@[0] == 78 && name@[1] == 111 && name@[2]
                            == 110 && name@[3] == 101);
                    }
                }
            }
            None
        }
    }
}

/// The edge service's configuration.
#[derive(Debug, Clone)]
pub struct CustomConfig {
    pub cors_allowed_origins: Vec<String>,
    pub cors_allow_all_origins: bool,
    pub cookies_same_site: SameSiteConfig,
}

/// By default no explicit origins are allowed.
pub fn get_default_cors_allowed_origins() -> (r: Vec<String>)
    ensures
        r@.len() == 0,
{
    Vec::new()
}

/// By default origins are not allowed wholesale.
pub fn get_default_allow_all_origins() -> (r: bool)
    ensures
        r == false,
{
    false
}

/// By default cookies carry the Lax same-site policy.
pub fn get_default_cookies_same_site() -> (r: SameSiteConfig)
    ensures
        r == SameSiteConfig(SameSitePolicy::Lax),
{
    SameSiteConfig(SameSitePolicy::Lax)
}

} // verus!
