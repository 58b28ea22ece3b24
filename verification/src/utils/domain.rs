//! The public address under which the service is reached.

use vstd::prelude::*;

verus! {

/// Host name and protocol used in every address the service hands out.
#[derive(Debug)]
pub struct DomainConfig {
    /// Host name under which callers reach the service, used verbatim.
    pub domain: String,
    /// Whether addresses start with `https` rather than `http`.
    pub is_https: bool,
}

impl DomainConfig {
    /// The scheme of every address built from this configuration.
    pub open spec fn scheme(&self) -> Seq<char> {
        if self.is_https {
            seq!['h', 't', 't', 'p', 's']
        } else {
            seq!['h', 't', 't', 'p']
        }
    }

    /// The address of the service root: scheme, `://`, host name.
    pub open spec fn base(&self) -> Seq<char> {
        self.scheme() + seq![':', '/', '/'] + self.domain@
    }

    /// Builds the address of the service root.
    pub fn base_url(&self) -> (url: String)
        ensures
            url@ == self.base(),
    {
        let mut url = String::from_str("http");
        if self.is_https {
            url.append("s");
        }
        url.append("://");
        url.append(self.domain.as_str());
        proof {
            reveal_strlit("http");
            reveal_strlit("s");
            reveal_strlit("://");
            assert(url@ =~= self.base());
        }
        url
    }
}

} // verus!
