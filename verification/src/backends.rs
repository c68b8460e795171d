//! The kinds of target and how a target URL (`scheme://path`) finds its
//! backend.
use vstd::prelude::*;

use crate::docker::{spec_resolve_container, DockerBackend};
use crate::target::string_views;
use crate::text::{find_seq, has_prefix, split_once, starts_with, str_chars};
use crate::tmux::{spec_resolve_target, TmuxBackend};

verus! {

/// A kind of attachable terminal.
pub trait Backend {
    /// The URL scheme of this kind of target.
    fn scheme(&self) -> &'static str;

    /// The program and arguments that attach the terminal to the target at `path`.
    fn build_command(&self, path: &str) -> Result<(String, Vec<String>), String>;
}

/// One of the backends.
pub enum AnyBackend {
    Docker(DockerBackend),
    Tmux(TmuxBackend),
}

/// The scheme of a backend.
pub open spec fn scheme_of(b: AnyBackend) -> Seq<char> {
    match b {
        AnyBackend::Docker(_) => "docker"@,
        AnyBackend::Tmux(_) => "tmux"@,
    }
}

/// What a backend's `build_command` gives for a path.
pub open spec fn command_of(b: AnyBackend, path: Seq<char>) -> (Seq<char>, Seq<Seq<char>>) {
    match b {
        AnyBackend::Docker(_) => ("docker"@, seq!["attach"@, spec_resolve_container(path)]),
        AnyBackend::Tmux(_) => ("tmux"@, seq!["attach-session"@, "-t"@, spec_resolve_target(path).0]),
    }
}

impl Backend for AnyBackend {
    fn scheme(&self) -> (r: &'static str)
        ensures
            r@ == scheme_of(*self),
    {
        match self {
            AnyBackend::Docker(d) => d.scheme(),
            AnyBackend::Tmux(t) => t.scheme(),
        }
    }

    fn build_command(&self, path: &str) -> (r: Result<(String, Vec<String>), String>)
        ensures
            r matches Ok((prog, args)) && (prog@, string_views(args@)) == command_of(*self, path@),
    {
        match self {
            AnyBackend::Docker(d) => d.build_command(path),
            AnyBackend::Tmux(t) => t.build_command(path),
        }
    }
}

/// The backend of a scheme, if there is one.
pub open spec fn spec_backend_for_scheme(scheme: Seq<char>) -> Option<AnyBackend> {
    if scheme == "docker"@ {
        Some(AnyBackend::Docker(DockerBackend))
    } else if scheme == "tmux"@ {
        Some(AnyBackend::Tmux(TmuxBackend))
    } else {
        None
    }
}

/// The backend of a scheme: `docker` or `tmux`.
pub fn backend_for_scheme(scheme: &str) -> (r: Option<AnyBackend>)
    ensures
        r == spec_backend_for_scheme(scheme@),
{
    let v = str_chars(scheme);
    if crate::text::chars_are(&v, "docker") {
        Some(AnyBackend::Docker(DockerBackend))
    } else if crate::text::chars_are(&v, "tmux") {
        Some(AnyBackend::Tmux(TmuxBackend))
    } else {
        None
    }
}

/// Every backend, docker first.
pub fn all_backends() -> (r: Vec<AnyBackend>)
    ensures
        r@ == seq![AnyBackend::Docker(DockerBackend), AnyBackend::Tmux(TmuxBackend)],
{
    let mut r: Vec<AnyBackend> = Vec::new();
    r.push(AnyBackend::Docker(DockerBackend));
    r.push(AnyBackend::Tmux(TmuxBackend));
    assert(r@ =~= seq![AnyBackend::Docker(DockerBackend), AnyBackend::Tmux(TmuxBackend)]);
    r
}

/// Whether `s` starts with the scheme of some backend and `://`.
pub open spec fn spec_is_target_url(s: Seq<char>) -> bool {
    starts_with(s, "docker"@ + "://"@) || starts_with(s, "tmux"@ + "://"@)
}

/// Whether `s` is a URL of some backend's targets.
pub fn is_target_url(s: &str) -> (r: bool)
    ensures
        r == spec_is_target_url(s@),
{
    let v = str_chars(s);
    let backends = all_backends();
    let mut i: usize = 0;
    while i < backends.len()
        invariant
            v@ == s@,
            backends@ == seq![AnyBackend::Docker(DockerBackend), AnyBackend::Tmux(TmuxBackend)],
            i <= backends.len(),
            forall|j: int| 0 <= j < i ==> !starts_with(s@, scheme_of(backends@[j]) + "://"@),
        decreases backends.len() - i,
    {
        let scheme = backends[i].scheme();
        let prefix = crate::text::concat2(scheme, "://");
        if has_prefix(&v, prefix.as_str()) {
            return true;
        }
        i += 1;
    }
    assert(!starts_with(s@, scheme_of(backends@[0]) + "://"@));
    assert(!starts_with(s@, scheme_of(backends@[1]) + "://"@));
    false
}

/// The scheme and path of a target URL, split at the first `://`.
pub open spec fn spec_parse_target_url(target: Seq<char>) -> Result<
    (Seq<char>, Seq<char>),
    Seq<char>,
> {
    match split_once(target, "://"@) {
        Some((scheme, path)) => Ok((scheme, path)),
        None => Err("invalid target URL: "@ + target),
    }
}

/// Splits a target URL into its scheme and path.
pub fn parse_target_url(target: &str) -> (r: Result<(&str, &str), String>)
    ensures
        match spec_parse_target_url(target@) {
            Ok((scheme, path)) => r matches Ok((s, p)) && s@ == scheme && p@ == path,
            Err(e) => r matches Err(m) && m@ == e,
        },
{
    let v = str_chars(target);
    let sep = str_chars("://");
    proof {
        reveal_strlit("://");
        crate::text::lemma_find_seq_sound(v@, sep@);
    }
    assert(v@.skip(0) =~= v@);
    match crate::text::find_from(&v, &sep, 0) {
        Some(i) => {
            let scheme = target.substring_char(0, i);
            let path = target.substring_char(i + sep.len(), v.len());
            assert(scheme@ =~= v@.take(i as int));
            assert(path@ =~= v@.skip(i + sep.len()));
            Ok((scheme, path))
        },
        None => Err(crate::text::concat2("invalid target URL: ", target)),
    }
}

/// The backend and path of a target URL.
pub open spec fn spec_backend_for_target(target: Seq<char>) -> Result<
    (AnyBackend, Seq<char>),
    Seq<char>,
> {
    match spec_parse_target_url(target) {
        Err(e) => Err(e),
        Ok((scheme, path)) => match spec_backend_for_scheme(scheme) {
            Some(b) => Ok((b, path)),
            None => Err("unknown target scheme: "@ + scheme),
        },
    }
}

/// The backend and path of a target URL; an error for a URL without `://`
/// or with a scheme that no backend serves.
pub fn backend_for_target(target: &str) -> (r: Result<(AnyBackend, &str), String>)
    ensures
        match spec_backend_for_target(target@) {
            Ok((b, path)) => r matches Ok((x, p)) && x == b && p@ == path,
            Err(e) => r matches Err(m) && m@ == e,
        },
{
    let (scheme, path) = match parse_target_url(target) {
        Ok(sp) => sp,
        Err(e) => return Err(e),
    };
    match backend_for_scheme(scheme) {
        Some(b) => Ok((b, path)),
        None => Err(crate::text::concat2("unknown target scheme: ", scheme)),
    }
}

/// Every backend is found again by its own scheme, and attaches with the
/// program named like that scheme.
pub proof fn law_backends_found_by_scheme(b: AnyBackend, path: Seq<char>)
    ensures
        spec_backend_for_scheme(scheme_of(b)) == Some(b),
        command_of(b, path).0 == scheme_of(b),
{
    reveal_strlit("docker");
    reveal_strlit("tmux");
    assert("docker"@ != "tmux"@) by {
        assert("docker"@.len() != "tmux"@.len());
    }
}

/// A string is taken for a target URL exactly when it names a backend and a
/// path: `is_target_url` accepts what `backend_for_target` resolves, and
/// nothing else.
pub proof fn law_target_url_resolves(s: Seq<char>)
    ensures
        spec_is_target_url(s) <==> spec_backend_for_target(s) is Ok,
{
    reveal_strlit("://");
    reveal_strlit("docker");
    reveal_strlit("tmux");
    let sep = "://"@;
    assert(sep =~= seq![':', '/', '/']);
    crate::text::lemma_find_seq_sound(s, sep);
    lemma_scheme_prefix(s, "docker"@);
    lemma_scheme_prefix(s, "tmux"@);
    match find_seq(s, sep) {
        Some(i) => {
            assert(split_once(s, sep) == Some((s.take(i), s.skip(i + 3))));
        },
        None => {},
    }
}

/// For a scheme without `:`, a URL starts with `scheme://` exactly when its
/// first `://` follows that scheme.
proof fn lemma_scheme_prefix(s: Seq<char>, scheme: Seq<char>)
    requires
        forall|j: int| 0 <= j < scheme.len() ==> scheme[j] != ':',
        "://"@ == seq![':', '/', '/'],
    ensures
        starts_with(s, scheme + "://"@) <==> (split_once(s, "://"@) matches Some((a, _))
            && a == scheme),
{
    let sep = "://"@;
    let n = scheme.len() as int;
    crate::text::lemma_find_seq_sound(s, sep);
    if starts_with(s, scheme + sep) {
        assert(s.take(n + 3) == scheme + sep);
        assert forall|j: int| 0 <= j < n implies #[trigger] s.subrange(j, j + sep.len()) != sep by {
            assert(s[j] == (scheme + sep)[j]);
            assert(s.subrange(j, j + sep.len())[0] == s[j]);
        }
        assert(s.subrange(n, n + 3) =~= sep) by {
            assert forall|k: int| 0 <= k < 3 implies s.subrange(n, n + 3)[k] == sep[k] by {
                assert(s[n + k] == (scheme + sep)[n + k]);
            }
        }
        crate::text::lemma_find_seq_at(s, sep, n);
        assert(s.take(n) =~= scheme) by {
            assert forall|k: int| 0 <= k < n implies s.take(n)[k] == scheme[k] by {
                assert(s[k] == (scheme + sep)[k]);
            }
        }
    }
    if split_once(s, sep) matches Some((a, _)) && a == scheme {
        let i = find_seq(s, sep)->0;
        assert(s.take(i) == scheme);
        assert(i == n);
        assert(s.take(n + 3) =~= scheme + sep) by {
            assert forall|k: int| 0 <= k < n + 3 implies s.take(n + 3)[k] == (scheme + sep)[k] by {
                if k < n {
                    assert(s.take(n)[k] == s[k]);
                } else {
                    assert(s.subrange(n, n + 3)[k - n] == s[k]);
                }
            }
        }
    }
}

} // verus!
