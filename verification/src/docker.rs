//! Docker containers as targets: `docker://name` and `docker://project/service`.
use vstd::prelude::*;
use vstd::string::StringSliceAdditionalSpecFns;

use crate::created::{docker_created, docker_time_parses};
use crate::keys::{key_to_bytes, spec_key_to_bytes};
use crate::target::{string_views, Target};
use crate::text::{
    find_seq, lemma_find_seq_at, lemma_find_seq_none, lemma_find_seq_sound,
    chars_are, lemma_split_all_nonempty, lines, lines_of, push_chars, split_all, split_on_char,
    split_once, split_once_char, splitn, splitn_on, str_chars, string_from, trim, trim_str, views,
};

verus! {

/// The backend for `docker://` targets.
pub struct DockerBackend;

// ---------------------------------------------------------------------------
// Specification
// ---------------------------------------------------------------------------

/// The container a target path names: the path itself, or `project-service`
/// for `project/service` (what Docker Compose names a service's container).
pub open spec fn spec_resolve_container(path: Seq<char>) -> Seq<char> {
    match split_once(path, seq!['/']) {
        Some((project, service)) => project + seq!['-'] + service,
        None => path,
    }
}

/// The fields of the `docker ps` lines that have all five of them.
pub open spec fn docker_records(ls: Seq<Seq<char>>) -> Seq<Seq<Seq<char>>>
    decreases ls.len(),
{
    if ls.len() == 0 {
        seq![]
    } else {
        let fields = splitn(ls.last(), 5, ";;"@);
        let rest = docker_records(ls.drop_last());
        if fields.len() == 5 {
            rest.push(fields)
        } else {
            rest
        }
    }
}

/// The value of the last `key=value` label with the given key.
pub open spec fn label_lookup(segments: Seq<Seq<char>>, key: Seq<char>) -> Option<Seq<char>>
    decreases segments.len(),
{
    if segments.len() == 0 {
        None
    } else {
        match split_once(segments.last(), seq!['=']) {
            Some((k, v)) => {
                if k == key {
                    Some(v)
                } else {
                    label_lookup(segments.drop_last(), key)
                }
            },
            None => label_lookup(segments.drop_last(), key),
        }
    }
}

/// A label of a comma-separated `key=value` list.
pub open spec fn label(labels: Seq<char>, key: Seq<char>) -> Option<Seq<char>> {
    label_lookup(split_all(labels, seq![',']), key)
}

/// The first of a container's comma-separated names.
pub open spec fn first_name(names: Seq<char>) -> Seq<char> {
    split_all(names, seq![','])[0]
}

/// The preferred URL of a container: its Compose project and service, or else
/// its first name.
pub open spec fn docker_url(f: Seq<Seq<char>>) -> Seq<char> {
    match (
        label(f[2], "com.docker.compose.project"@),
        label(f[2], "com.docker.compose.service"@),
    ) {
        (Some(p), Some(s)) => "docker://"@ + p + seq!['/'] + s,
        _ => "docker://"@ + first_name(f[1]),
    }
}

/// The other URLs of a container: by id, and by name where that differs from
/// the preferred URL.
pub open spec fn docker_aliases(f: Seq<Seq<char>>) -> Seq<Seq<char>> {
    let by_id = "docker://"@ + f[0];
    let by_name = "docker://"@ + first_name(f[1]);
    if by_name != docker_url(f) {
        seq![by_id, by_name]
    } else {
        seq![by_id]
    }
}

/// A target made from the fields `id;;names;;labels;;command;;created_at`.
pub open spec fn docker_target_matches(t: Target, f: Seq<Seq<char>>) -> bool {
    &&& t.id@ == "docker://"@ + f[0]
    &&& t.url@ == docker_url(f)
    &&& string_views(t.aliases@) == docker_aliases(f)
    &&& t.command@ == f[3]
    &&& !docker_time_parses(f[4]) ==> t.created@ == f[4]
    &&& docker_time_parses(f[4]) ==> t.created@.len() > 0
}

/// The targets read from the output of `docker ps`, one per complete line.
pub open spec fn docker_targets_match(ts: Seq<Target>, stdout: Seq<char>) -> bool {
    let recs = docker_records(lines(stdout));
    &&& ts.len() == recs.len()
    &&& forall|i: int| 0 <= i < ts.len() ==> #[trigger] docker_target_matches(ts[i], recs[i])
}

/// `\r` becomes `\n`: without a terminal in between, a carriage return would
/// not end a line.
pub open spec fn pipe_bytes(data: Seq<u8>) -> Seq<u8> {
    data.map_values(|b: u8| if b == 13 { 10u8 } else { b })
}

/// The keys' bytes, one after another.
pub open spec fn keys_bytes(keys: Seq<Seq<char>>) -> Seq<u8>
    decreases keys.len(),
{
    if keys.len() == 0 {
        seq![]
    } else {
        keys_bytes(keys.drop_last()) + spec_key_to_bytes(keys.last())
    }
}

/// How input reaches a container.
#[derive(Debug, Clone, Copy, PartialEq, Eq, Structural)]
pub enum WriteMethod {
    /// Through `docker attach` on a raw pseudo-terminal, so that control
    /// characters raise signals.
    Pty,
    /// Straight into the main process's standard input.
    Pipe,
}

/// What came while waiting for the container to echo the input.
#[derive(Debug, Clone, Copy, PartialEq, Eq, Structural)]
pub enum EchoEvent {
    /// Bytes arrived.
    Received(usize),
    /// Nothing arrived within a short wait.
    Quiet,
    /// The reader is gone.
    Closed,
}

/// Sending keys in one call writes what sending them in two calls, one part
/// after the other, writes.
pub proof fn law_keys_concatenate(a: Seq<Seq<char>>, b: Seq<Seq<char>>)
    ensures
        keys_bytes(a + b) == keys_bytes(a) + keys_bytes(b),
    decreases b.len(),
{
    if b.len() == 0 {
        assert(a + b =~= a);
        assert(keys_bytes(a) + keys_bytes(b) =~= keys_bytes(a));
    } else {
        law_keys_concatenate(a, b.drop_last());
        assert((a + b).drop_last() =~= a + b.drop_last());
        assert((a + b).last() == b.last());
        assert(keys_bytes(a + b) =~= keys_bytes(a) + keys_bytes(b));
    }
}

/// What goes down a container's standard input has the same length, no
/// carriage return, and every other byte unchanged.
pub proof fn law_pipe_no_carriage_return(data: Seq<u8>)
    ensures
        pipe_bytes(data).len() == data.len(),
        forall|i: int| 0 <= i < data.len() ==> #[trigger] pipe_bytes(data)[i] != 13,
        forall|i: int|
            0 <= i < data.len() && data[i] != 13 ==> #[trigger] pipe_bytes(data)[i] == data[i],
{
}

/// Whether the character `c` does not occur in `s`.
pub open spec fn lacks(s: Seq<char>, c: char) -> bool {
    forall|j: int| 0 <= j < s.len() ==> s[j] != c
}

proof fn lemma_no_match(s: Seq<char>, c: char)
    requires
        lacks(s, c),
    ensures
        find_seq(s, seq![c]) is None,
{
    let pat = seq![c];
    assert forall|j: int| 0 <= j && j + pat.len() <= s.len() implies #[trigger] s.subrange(
        j,
        j + pat.len(),
    ) != pat by {
        assert(s.subrange(j, j + pat.len())[0] == s[j]);
    }
    lemma_find_seq_none(s, pat);
}

/// Splitting `a,b` at commas, where `b` has no comma, gives the pieces of `a`
/// and then `b`.
proof fn lemma_split_comma_append(a: Seq<char>, b: Seq<char>)
    requires
        lacks(b, ','),
    ensures
        split_all(a + seq![','] + b, seq![',']) == split_all(a, seq![',']).push(b),
    decreases a.len(),
{
    let pat = seq![','];
    let s = a + pat + b;
    lemma_find_seq_sound(a, pat);
    match find_seq(a, pat) {
        Some(i) => {
            assert forall|j: int| 0 <= j < i implies #[trigger] s.subrange(j, j + pat.len())
                != pat by {
                assert(s.subrange(j, j + pat.len()) =~= a.subrange(j, j + pat.len()));
            }
            assert(s.subrange(i, i + pat.len()) =~= a.subrange(i, i + pat.len()));
            lemma_find_seq_at(s, pat, i);
            let rest = a.skip(i + 1);
            assert(s.take(i) =~= a.take(i));
            assert(s.skip(i + 1) =~= rest + pat + b);
            lemma_split_comma_append(rest, b);
            assert(split_all(s, pat) =~= seq![a.take(i)] + split_all(rest, pat).push(b));
            assert(split_all(a, pat) =~= seq![a.take(i)] + split_all(rest, pat));
        },
        None => {
            let n = a.len() as int;
            assert forall|j: int| 0 <= j < n implies #[trigger] s.subrange(j, j + pat.len())
                != pat by {
                assert(s.subrange(j, j + pat.len()) =~= a.subrange(j, j + pat.len()));
            }
            assert(s.subrange(n, n + pat.len()) =~= pat);
            lemma_find_seq_at(s, pat, n);
            assert(s.take(n) =~= a);
            assert(s.skip(n + 1) =~= b);
            lemma_no_match(b, ',');
            assert(split_all(b, pat) =~= seq![b]);
            assert(split_all(a, pat) =~= seq![a]);
            assert(split_all(s, pat) =~= seq![a, b]);
        },
    }
}

/// A label `k=v` whose key has no `=` splits into that key and value.
proof fn lemma_split_label(k: Seq<char>, v: Seq<char>)
    requires
        lacks(k, '='),
    ensures
        split_once(k + seq!['='] + v, seq!['=']) == Some((k, v)),
{
    let pat = seq!['='];
    let s = k + pat + v;
    let n = k.len() as int;
    assert forall|j: int| 0 <= j < n implies #[trigger] s.subrange(j, j + pat.len()) != pat by {
        assert(s.subrange(j, j + pat.len())[0] == k[j]);
    }
    assert(s.subrange(n, n + pat.len()) =~= pat);
    lemma_find_seq_at(s, pat, n);
    assert(s.take(n) =~= k);
    assert(s.skip(n + 1) =~= v);
}

/// A label list of one `k=v` label has the value `v` for the key `k` and no
/// value for any other key.
pub proof fn law_label_single(k: Seq<char>, v: Seq<char>, key: Seq<char>)
    requires
        lacks(k, ','),
        lacks(k, '='),
        lacks(v, ','),
    ensures
        label(k + seq!['='] + v, key) == (if k == key {
            Some(v)
        } else {
            None::<Seq<char>>
        }),
{
    let seg = k + seq!['='] + v;
    assert forall|j: int| 0 <= j < seg.len() implies seg[j] != ',' by {
        if j < k.len() {
            assert(seg[j] == k[j]);
        } else if j > k.len() {
            assert(seg[j] == v[j - k.len() - 1]);
        }
    }
    lemma_no_match(seg, ',');
    assert(split_all(seg, seq![',']) =~= seq![seg]);
    lemma_split_label(k, v);
    assert(seq![seg].drop_last() =~= Seq::<Seq<char>>::empty());
    assert(label_lookup(Seq::<Seq<char>>::empty(), key) is None);
    assert(label(seg, key) == label_lookup(seq![seg], key));
}

/// Adding a label `k=v` at the end of a list gives the key `k` the value `v`
/// and leaves the value of every other key as it was: a key is matched
/// exactly, not by a prefix.
pub proof fn law_label_append(labels: Seq<char>, k: Seq<char>, v: Seq<char>, key: Seq<char>)
    requires
        lacks(k, ','),
        lacks(k, '='),
        lacks(v, ','),
    ensures
        label(labels + seq![','] + k + seq!['='] + v, key) == (if k == key {
            Some(v)
        } else {
            label(labels, key)
        }),
{
    let seg = k + seq!['='] + v;
    assert forall|j: int| 0 <= j < seg.len() implies seg[j] != ',' by {
        if j < k.len() {
            assert(seg[j] == k[j]);
        } else if j > k.len() {
            assert(seg[j] == v[j - k.len() - 1]);
        }
    }
    assert(labels + seq![','] + k + seq!['='] + v =~= labels + seq![','] + seg);
    lemma_split_comma_append(labels, seg);
    let segs = split_all(labels, seq![',']);
    assert(segs.push(seg).drop_last() =~= segs);
    lemma_split_label(k, v);
}

/// A container labelled with a Compose project and then a service has the
/// URL `docker://project/service`.
pub proof fn law_compose_url(f: Seq<Seq<char>>, p: Seq<char>, s: Seq<char>)
    requires
        f.len() == 5,
        f[2] == "com.docker.compose.project="@ + p + ",com.docker.compose.service="@ + s,
        lacks(p, ','),
        lacks(s, ','),
    ensures
        docker_url(f) == "docker://"@ + p + seq!['/'] + s,
{
    let kp = "com.docker.compose.project"@;
    let ks = "com.docker.compose.service"@;
    reveal_strlit("com.docker.compose.project=");
    reveal_strlit(",com.docker.compose.service=");
    reveal_strlit("com.docker.compose.project");
    reveal_strlit("com.docker.compose.service");
    assert(kp.len() == 26 && ks.len() == 26);
    assert(kp[19] != ks[19]);
    assert(lacks(kp, ','));
    assert(lacks(kp, '='));
    assert(lacks(ks, ','));
    assert(lacks(ks, '='));
    let first = kp + seq!['='] + p;
    assert(f[2] =~= first + seq![','] + ks + seq!['='] + s);
    law_label_append(first, ks, s, kp);
    law_label_append(first, ks, s, ks);
    law_label_single(kp, p, kp);
}

/// Adding a label whose key is neither the Compose project's nor the
/// service's (`com.docker.compose.project.working_dir`, say) leaves a
/// container's URL as it was.
pub proof fn law_other_label_keeps_url(f: Seq<Seq<char>>, k: Seq<char>, v: Seq<char>)
    requires
        f.len() == 5,
        lacks(k, ','),
        lacks(k, '='),
        lacks(v, ','),
        k != "com.docker.compose.project"@,
        k != "com.docker.compose.service"@,
    ensures
        docker_url(f.update(2, f[2] + seq![','] + k + seq!['='] + v)) == docker_url(f),
{
    let g = f.update(2, f[2] + seq![','] + k + seq!['='] + v);
    law_label_append(f[2], k, v, "com.docker.compose.project"@);
    law_label_append(f[2], k, v, "com.docker.compose.service"@);
    assert(g[1] == f[1]);
}

// ---------------------------------------------------------------------------
// Implementation
// ---------------------------------------------------------------------------

/// The container name that a target path names.
pub fn resolve_container(path: &str) -> (r: Result<String, String>)
    ensures
        r matches Ok(c) && c@ == spec_resolve_container(path@),
{
    let v = str_chars(path);
    match split_once_char(&v, '/') {
        Some((project, service)) => {
            let mut c = string_from(&project);
            crate::text::push_char(&mut c, '-');
            push_chars(&mut c, &service);
            assert(c@ =~= project@ + seq!['-'] + service@);
            Ok(c)
        },
        None => Ok(String::from_str(path)),
    }
}

/// Whether `docker inspect -f {{.Config.Tty}}` printed `true`.
pub fn inspect_reports_tty(stdout: &str) -> (r: bool)
    ensures
        r == (trim(stdout@) == "true"@),
{
    let v = str_chars(stdout);
    let t = crate::text::trim_chars(&v);
    chars_are(&t, "true")
}

/// A container with a terminal gets the input through a pseudo-terminal,
/// others through their standard input.
pub fn write_method(has_tty: bool) -> (r: WriteMethod)
    ensures
        r == (if has_tty {
            WriteMethod::Pty
        } else {
            WriteMethod::Pipe
        }),
{
    if has_tty {
        WriteMethod::Pty
    } else {
        WriteMethod::Pipe
    }
}

/// The bytes written to a container's standard input: carriage returns
/// become newlines.
pub fn pipe_payload(data: &[u8]) -> (r: Vec<u8>)
    ensures
        r@ == pipe_bytes(data@),
{
    let mut r: Vec<u8> = Vec::new();
    let mut i: usize = 0;
    while i < data.len()
        invariant
            i <= data.len(),
            r@ == pipe_bytes(data@.take(i as int)),
        decreases data.len() - i,
    {
        let b = data[i];
        r.push(if b == 13 {
            10u8
        } else {
            b
        });
        assert(pipe_bytes(data@.take(i + 1)) =~= pipe_bytes(data@.take(i as int)).push(
            if b == 13 {
                10u8
            } else {
                b
            },
        ));
        i += 1;
    }
    assert(data@.take(data.len() as int) =~= data@);
    r
}

fn strings_of(a: &str, b: &str) -> (r: Vec<String>)
    ensures
        string_views(r@) == seq![a@, b@],
        r@.len() == 2,
        r@[0]@ == a@,
        r@[1]@ == b@,
{
    let mut r: Vec<String> = Vec::new();
    r.push(String::from_str(a));
    r.push(String::from_str(b));
    assert(string_views(r@) =~= seq![a@, b@]);
    r
}

/// The arguments of the `docker inspect` run that tells whether a container
/// has a terminal.
pub fn inspect_tty_args(container: &str) -> (r: Vec<String>)
    ensures
        string_views(r@) == seq!["inspect"@, "-f"@, "{{.Config.Tty}}"@, container@],
{
    let mut r = strings_of("inspect", "-f");
    r.push(String::from_str("{{.Config.Tty}}"));
    r.push(String::from_str(container));
    assert(string_views(r@) =~= seq!["inspect"@, "-f"@, "{{.Config.Tty}}"@, container@]);
    r
}

/// The arguments of the `docker attach` run that carries input through a
/// pseudo-terminal; ctrl+] detaches it again.
pub fn attach_pty_args(container: &str) -> (r: Vec<String>)
    ensures
        string_views(r@) == seq!["attach"@, "--detach-keys=ctrl-]"@, container@],
{
    let mut r = strings_of("attach", "--detach-keys=ctrl-]");
    r.push(String::from_str(container));
    assert(string_views(r@) =~= seq!["attach"@, "--detach-keys=ctrl-]"@, container@]);
    r
}

/// The byte of ctrl+], which detaches `docker attach`.
pub fn detach_byte() -> (r: u8)
    ensures
        r == 0x1d,
{
    0x1d
}

/// The arguments of the `docker exec` run that writes into the standard input
/// of the container's main process.
pub fn pipe_exec_args(container: &str) -> (r: Vec<String>)
    ensures
        string_views(r@) == seq![
            "exec"@,
            "-i"@,
            container@,
            "sh"@,
            "-c"@,
            "cat > /proc/1/fd/0"@,
        ],
{
    let mut r = strings_of("exec", "-i");
    r.push(String::from_str(container));
    r.push(String::from_str("sh"));
    r.push(String::from_str("-c"));
    r.push(String::from_str("cat > /proc/1/fd/0"));
    assert(string_views(r@) =~= seq![
        "exec"@,
        "-i"@,
        container@,
        "sh"@,
        "-c"@,
        "cat > /proc/1/fd/0"@,
    ]);
    r
}

/// The error of a failed `docker exec`.
pub fn exec_failure(stderr: &str) -> (r: String)
    ensures
        r@ == "docker exec failed: "@ + trim(stderr@),
{
    let mut r = String::from_str("docker exec failed: ");
    let t = trim_str(stderr);
    r.append(t.as_str());
    r
}

/// One step of waiting for the echo of `expected` written bytes, of which
/// `received` have come back: the new count, and whether to stop waiting.
/// Waiting stops once all have come back, when the reader is gone, or when
/// a quiet spell follows some echo.
pub fn echo_wait_step(received: usize, expected: usize, event: EchoEvent) -> (r: (usize, bool))
    ensures
        match event {
            EchoEvent::Received(n) => {
                let total = if received + n > usize::MAX {
                    usize::MAX as int
                } else {
                    received + n
                };
                r.0 == total && r.1 == (total >= expected)
            },
            EchoEvent::Quiet => r.0 == received && r.1 == (received > 0),
            EchoEvent::Closed => r.0 == received && r.1,
        },
{
    match event {
        EchoEvent::Received(n) => {
            let total = received.saturating_add(n);
            (total, total >= expected)
        },
        EchoEvent::Quiet => (received, received > 0),
        EchoEvent::Closed => (received, true),
    }
}

fn label_value(segments: &Vec<Vec<char>>, key: &str) -> (r: Option<Vec<char>>)
    ensures
        match label_lookup(views(segments@), key@) {
            Some(v) => r matches Some(x) && x@ == v,
            None => r is None,
        },
{
    let ghost segs = views(segments@);
    let mut j = segments.len();
    assert(segs.take(j as int) =~= segs);
    while j > 0
        invariant
            segs == views(segments@),
            j <= segments.len(),
            label_lookup(segs, key@) == label_lookup(segs.take(j as int), key@),
        decreases j,
    {
        let ghost t = segs.take(j as int);
        assert(t.last() == segments@[j - 1]@);
        assert(t.drop_last() =~= segs.take(j - 1));
        match split_once_char(&segments[j - 1], '=') {
            Some((k, v)) => {
                if chars_are(&k, key) {
                    return Some(v);
                }
            },
            None => {},
        }
        j -= 1;
    }
    None
}

fn docker_target(f: &Vec<Vec<char>>) -> (t: Target)
    requires
        f.len() == 5,
    ensures
        docker_target_matches(t, views(f@)),
{
    let ghost fs = views(f@);
    assert(fs[0] == f@[0]@ && fs[1] == f@[1]@ && fs[2] == f@[2]@ && fs[3] == f@[3]@ && fs[4]
        == f@[4]@);
    let segments = split_on_char(&f[2], ',');
    let project = label_value(&segments, "com.docker.compose.project");
    let service = label_value(&segments, "com.docker.compose.service");
    let names = split_on_char(&f[1], ',');
    proof {
        lemma_split_all_nonempty(f@[1]@, seq![',']);
    }
    let name = &names[0];
    assert(name@ == first_name(fs[1]));
    let mut url = String::from_str("docker://");
    match (project, service) {
        (Some(p), Some(s)) => {
            push_chars(&mut url, &p);
            crate::text::push_char(&mut url, '/');
            push_chars(&mut url, &s);
        },
        _ => {
            push_chars(&mut url, name);
        },
    }
    assert(url@ =~= docker_url(fs));
    let mut id = String::from_str("docker://");
    push_chars(&mut id, &f[0]);
    let mut by_name = String::from_str("docker://");
    push_chars(&mut by_name, name);
    let mut aliases: Vec<String> = Vec::new();
    aliases.push(id.clone());
    if by_name != url {
        aliases.push(by_name);
    }
    assert(string_views(aliases@) =~= docker_aliases(fs));
    let created_at = string_from(&f[4]);
    let created = docker_created(created_at.as_str());
    Target { id, url, aliases, command: string_from(&f[3]), created }
}

/// The targets in the output of a successful `docker ps`.
pub fn docker_targets(stdout: &str) -> (r: Vec<Target>)
    ensures
        docker_targets_match(r@, stdout@),
{
    let v = str_chars(stdout);
    let ls = lines_of(&v);
    let ghost all = views(ls@);
    let mut targets: Vec<Target> = Vec::new();
    let mut i: usize = 0;
    assert(all.take(0) =~= Seq::<Seq<char>>::empty());
    while i < ls.len()
        invariant
            all == views(ls@),
            all == lines(stdout@),
            i <= ls.len(),
            targets@.len() == docker_records(all.take(i as int)).len(),
            forall|j: int|
                0 <= j < targets@.len() ==> #[trigger] docker_target_matches(
                    targets@[j],
                    docker_records(all.take(i as int))[j],
                ),
        decreases ls.len() - i,
    {
        proof {
            reveal_strlit(";;");
        }
        let fields = splitn_on(&ls[i], 5, ";;");
        let ghost prev = docker_records(all.take(i as int));
        proof {
            assert(all.take(i + 1).drop_last() =~= all.take(i as int));
            assert(all.take(i + 1).last() == ls@[i as int]@);
        }
        if fields.len() == 5 {
            let t = docker_target(&fields);
            let ghost before = targets@;
            targets.push(t);
            proof {
                assert(docker_records(all.take(i + 1)) == prev.push(views(fields@)));
                assert forall|j: int| 0 <= j < targets@.len() implies #[trigger] docker_target_matches(
                    targets@[j],
                    docker_records(all.take(i + 1))[j],
                ) by {
                    if j < targets@.len() - 1 {
                        assert(targets@[j] == before[j]);
                    }
                }
            }
        } else {
            assert(docker_records(all.take(i + 1)) == prev);
        }
        i += 1;
    }
    assert(all.take(i as int) =~= all);
    targets
}

/// The targets of `docker ps`, or its error when it failed.
pub fn docker_ps_outcome(success: bool, stdout: &str, stderr: &str) -> (r: Result<
    Vec<Target>,
    String,
>)
    ensures
        success ==> (r matches Ok(ts) && docker_targets_match(ts@, stdout@)),
        !success ==> (r matches Err(e) && e@ == "docker ps failed: "@ + trim(stderr@)),
{
    if !success {
        let mut e = String::from_str("docker ps failed: ");
        let t = trim_str(stderr);
        e.append(t.as_str());
        return Err(e);
    }
    Ok(docker_targets(stdout))
}

impl crate::backends::Backend for DockerBackend {
    fn scheme(&self) -> (r: &'static str)
        ensures
            r@ == "docker"@,
    {
        "docker"
    }

    /// The program and arguments that attach to a target: `docker attach`.
    fn build_command(&self, path: &str) -> (r: Result<(String, Vec<String>), String>)
        ensures
            r matches Ok((prog, args)) && prog@ == "docker"@ && string_views(args@) == seq![
                "attach"@,
                spec_resolve_container(path@),
            ],
    {
        let container = match resolve_container(path) {
            Ok(c) => c,
            Err(e) => return Err(e),
        };
        let mut args: Vec<String> = Vec::new();
        args.push(String::from_str("attach"));
        args.push(container);
        assert(string_views(args@) =~= seq!["attach"@, spec_resolve_container(path@)]);
        Ok((String::from_str("docker"), args))
    }
}

impl DockerBackend {

    /// The arguments of the `docker ps` run that lists containers, in the
    /// layout that `docker_targets` reads.
    pub fn list_args(&self) -> (r: Vec<String>)
        ensures
            string_views(r@) == seq![
                "ps"@,
                "--format"@,
                "{{.ID}};;{{.Names}};;{{.Labels}};;{{.Command}};;{{.CreatedAt}}"@,
            ],
    {
        let mut r: Vec<String> = Vec::new();
        r.push(String::from_str("ps"));
        r.push(String::from_str("--format"));
        r.push(String::from_str("{{.ID}};;{{.Names}};;{{.Labels}};;{{.Command}};;{{.CreatedAt}}"));
        assert(string_views(r@) =~= seq![
            "ps"@,
            "--format"@,
            "{{.ID}};;{{.Names}};;{{.Labels}};;{{.Command}};;{{.CreatedAt}}"@,
        ]);
        r
    }


    /// The container and the bytes that sending these keys writes to it.
    pub fn keys_payload(&self, path: &str, keys: &Vec<String>) -> (r: Result<
        (String, Vec<u8>),
        String,
    >)
        ensures
            r matches Ok((c, bytes)) && c@ == spec_resolve_container(path@) && bytes@ == keys_bytes(
                string_views(keys@),
            ),
    {
        let container = match resolve_container(path) {
            Ok(c) => c,
            Err(e) => return Err(e),
        };
        let ghost ks = string_views(keys@);
        let mut bytes: Vec<u8> = Vec::new();
        let mut i: usize = 0;
        assert(ks.take(0) =~= Seq::<Seq<char>>::empty());
        while i < keys.len()
            invariant
                ks == string_views(keys@),
                i <= keys.len(),
                bytes@ == keys_bytes(ks.take(i as int)),
            decreases keys.len() - i,
        {
            let mut b = key_to_bytes(keys[i].as_str());
            bytes.append(&mut b);
            assert(ks.take(i + 1).drop_last() =~= ks.take(i as int));
            assert(ks.take(i + 1).last() == keys@[i as int]@);
            i += 1;
        }
        assert(ks.take(keys.len() as int) =~= ks);
        Ok((container, bytes))
    }

    /// The container and the bytes that sending this text writes to it.
    pub fn text_payload(&self, path: &str, text: &str) -> (r: Result<(String, Vec<u8>), String>)
        ensures
            r matches Ok((c, bytes)) && c@ == spec_resolve_container(path@) && bytes@
                == text.spec_bytes(),
    {
        let container = match resolve_container(path) {
            Ok(c) => c,
            Err(e) => return Err(e),
        };
        Ok((container, text.as_bytes_vec()))
    }
}

} // verus!
