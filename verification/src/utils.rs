use vstd::prelude::*;
use vstd::string::*;

use crate::errors::KubeCTFError;
use crate::forms::{containers_view, spec_is_name_char, Container, ContainerV, Port, PortV};
use crate::models::{links_view, Link, LinkV};

verus! {

/// Relies on str's PartialEq: two string slices are equal exactly when
/// their character sequences are.
pub assume_specification[ <str as PartialEq>::eq ](a: &str, b: &str) -> (r: bool)
    ensures
        r == (a@ == b@),
;

/// Joins two name components with a hyphen, dropping an empty side.
pub open spec fn spec_hyph(a: Seq<char>, b: Seq<char>) -> Seq<char> {
    if a.len() == 0 {
        b
    } else if b.len() == 0 {
        a
    } else {
        a + seq!['-'] + b
    }
}

/// The shared naming rule: join the non-empty members of
/// `[domain_or_port, container_name, instance_id]` with hyphens. The
/// provisioning provider uses it for route objects and the link generator
/// for the externally visible hosts, so a generated link always addresses
/// the route the provider created.
pub open spec fn spec_derived_name(domain_or_port: Seq<char>, container_name: Seq<char>, instance_id: Seq<char>) -> Seq<
    char,
> {
    spec_hyph(domain_or_port, spec_hyph(container_name, instance_id))
}

/// The per-container resource name: container name and instance id joined,
/// with an empty container name dropped.
pub open spec fn spec_instance_name(container_name: Seq<char>, instance_id: Seq<char>) -> Seq<char> {
    spec_hyph(container_name, instance_id)
}

/// The decimal digits of `n`, most significant first.
pub open spec fn spec_udec(n: nat) -> Seq<char>
    decreases n,
{
    if n < 10 {
        seq![spec_digit_char(n)]
    } else {
        spec_udec(n / 10).push(spec_digit_char(n % 10))
    }
}

/// The character for one decimal digit.
pub open spec fn spec_digit_char(d: nat) -> char {
    if d == 0 {
        '0'
    } else if d == 1 {
        '1'
    } else if d == 2 {
        '2'
    } else if d == 3 {
        '3'
    } else if d == 4 {
        '4'
    } else if d == 5 {
        '5'
    } else if d == 6 {
        '6'
    } else if d == 7 {
        '7'
    } else if d == 8 {
        '8'
    } else {
        '9'
    }
}

/// The decimal rendering of a signed number.
pub open spec fn spec_decimal(n: int) -> Seq<char> {
    if n < 0 {
        seq!['-'] + spec_udec((-n) as nat)
    } else {
        spec_udec(n as nat)
    }
}

/// The first naming component for a port: its domain override when one is
/// set and non-empty, otherwise its decimal port number.
pub open spec fn spec_domain_or_port(p: PortV) -> Seq<char> {
    match p.domain {
        Some(d) => if d.len() > 0 {
            d
        } else {
            spec_decimal(p.number)
        },
        None => spec_decimal(p.number),
    }
}

/// Relies on String::push: appends the character at the end of the string.
#[verifier::external_body]
fn push_char(s: &mut String, c: char)
    ensures
        final(s)@ == old(s)@.push(c),
{
    s.push(c)
}

fn append_digit(s: &mut String, d: u64)
    requires
        d < 10,
    ensures
        final(s)@ == old(s)@.push(spec_digit_char(d as nat)),
{
    let c: char = match d {
        0 => '0',
        1 => '1',
        2 => '2',
        3 => '3',
        4 => '4',
        5 => '5',
        6 => '6',
        7 => '7',
        8 => '8',
        _ => '9',
    };
    push_char(s, c);
}

fn append_udec(s: &mut String, n: u64)
    ensures
        final(s)@ == old(s)@ + spec_udec(n as nat),
    decreases n,
{
    if n >= 10 {
        assert(n / 10 < n) by (nonlinear_arith)
            requires
                n >= 10,
        ;
        append_udec(s, n / 10);
        append_digit(s, n % 10);
        assert(s@ =~= old(s)@ + spec_udec(n as nat));
    } else {
        append_digit(s, n);
        assert(s@ =~= old(s)@ + spec_udec(n as nat));
    }
}

/// Renders a number in decimal, as the route and link namers need it.
pub fn i32_to_string(n: i32) -> (r: String)
    ensures
        r@ == spec_decimal(n as int),
{
    let mut s = String::new();
    if n < 0 {
        push_char(&mut s, '-');
        let mag: u64 = (-(n as i64)) as u64;
        append_udec(&mut s, mag);
        assert(s@ =~= spec_decimal(n as int));
    } else {
        append_udec(&mut s, n as u64);
    }
    s
}

/// Joins two components with a hyphen, dropping an empty side.
pub fn hyph_join(a: &str, b: &str) -> (r: String)
    ensures
        r@ == spec_hyph(a@, b@),
{
    if a.unicode_len() == 0 {
        String::from_str(b)
    } else if b.unicode_len() == 0 {
        String::from_str(a)
    } else {
        let mut s = String::from_str(a);
        proof {
            reveal_strlit("-");
        }
        s.append("-");
        s.append(b);
        assert(s@ =~= spec_hyph(a@, b@));
        s
    }
}

/// Derives the shared route/link name from its three components.
pub fn derive_name(domain_or_port: &str, container_name: &str, instance_id: &str) -> (r: String)
    ensures
        r@ == spec_derived_name(domain_or_port@, container_name@, instance_id@),
{
    let tail = hyph_join(container_name, instance_id);
    hyph_join(domain_or_port, tail.as_str())
}

/// The route/link name for one port of one container.
pub fn port_route_name(port: &Port, container_name: &str, instance_id: &str) -> (r: String)
    ensures
        r@ == spec_derived_name(spec_domain_or_port(port@), container_name@, instance_id@),
{
    let domain_or_port = match &port.domain {
        Some(d) => {
            if d.as_str().unicode_len() > 0 {
                d.clone()
            } else {
                i32_to_string(port.number)
            }
        },
        None => i32_to_string(port.number),
    };
    derive_name(domain_or_port.as_str(), container_name, instance_id)
}

/// The full host for one port of one container: the derived name, a dot,
/// and the base domain.
pub open spec fn spec_link_url(p: PortV, container_name: Seq<char>, instance_id: Seq<char>, base_domain: Seq<char>) -> Seq<
    char,
> {
    spec_derived_name(spec_domain_or_port(p), container_name, instance_id) + seq!['.'] + base_domain
}

/// The links for the ports of one container, in port order.
pub open spec fn spec_ports_links(c: ContainerV, instance_id: Seq<char>, base_domain: Seq<char>) -> Seq<LinkV> {
    c.ports.map_values(
        |p: PortV| LinkV { url: spec_link_url(p, c.name, instance_id, base_domain), protocol: p.protocol },
    )
}

/// The links for a whole container list, containers in order, ports in
/// order within each.
pub open spec fn spec_container_links(containers: Seq<ContainerV>, instance_id: Seq<char>, base_domain: Seq<char>) -> Seq<
    LinkV,
>
    decreases containers.len(),
{
    if containers.len() == 0 {
        Seq::empty()
    } else {
        spec_ports_links(containers[0], instance_id, base_domain) + spec_container_links(
            containers.drop_first(),
            instance_id,
            base_domain,
        )
    }
}

proof fn lemma_container_links_take_step(containers: Seq<ContainerV>, instance_id: Seq<char>, base_domain: Seq<char>, i: int)
    requires
        0 <= i < containers.len(),
    ensures
        spec_container_links(containers.take(i + 1), instance_id, base_domain) == spec_container_links(
            containers.take(i),
            instance_id,
            base_domain,
        ) + spec_ports_links(containers[i], instance_id, base_domain),
    decreases i,
{
    let pre = containers.take(i + 1);
    if i == 0 {
        assert(pre.drop_first() =~= containers.take(0));
        assert(pre[0] == containers[0]);
        assert(spec_container_links(containers.take(0), instance_id, base_domain) =~= Seq::<LinkV>::empty());
        assert(spec_container_links(pre, instance_id, base_domain) =~= spec_container_links(
            containers.take(0),
            instance_id,
            base_domain,
        ) + spec_ports_links(containers[0], instance_id, base_domain));
    } else {
        lemma_container_links_take_step(containers.drop_first(), instance_id, base_domain, i - 1);
        assert(pre.drop_first() =~= containers.drop_first().take(i));
        assert(containers.take(i).drop_first() =~= containers.drop_first().take(i - 1));
        assert(containers.drop_first()[i - 1] == containers[i]);
        assert(spec_container_links(containers.take(i), instance_id, base_domain) == spec_ports_links(
            containers[0],
            instance_id,
            base_domain,
        ) + spec_container_links(containers.drop_first().take(i - 1), instance_id, base_domain));
        assert(spec_container_links(pre, instance_id, base_domain) == spec_ports_links(
            containers[0],
            instance_id,
            base_domain,
        ) + spec_container_links(containers.drop_first().take(i), instance_id, base_domain));
        assert(spec_container_links(pre, instance_id, base_domain) =~= spec_container_links(
            containers.take(i),
            instance_id,
            base_domain,
        ) + spec_ports_links(containers[i], instance_id, base_domain));
    }
}

/// Generates the connection links for every port of every container, with
/// the same name derivation the provisioning provider uses for its route
/// objects.
pub fn generate_container_links(base_domain: &str, id: &str, containers: &Vec<Container>) -> (r: Vec<Link>)
    ensures
        links_view(r@) == spec_container_links(containers_view(containers@), id@, base_domain@),
{
    let ghost cv = containers_view(containers@);
    let mut links: Vec<Link> = Vec::new();
    let mut ci: usize = 0;
    proof {
        assert(cv.take(0) =~= Seq::<ContainerV>::empty());
        assert(links_view(links@) =~= spec_container_links(cv.take(0), id@, base_domain@));
    }
    while ci < containers.len()
        invariant
            0 <= ci <= containers@.len(),
            cv == containers_view(containers@),
            links_view(links@) == spec_container_links(cv.take(ci as int), id@, base_domain@),
        decreases containers@.len() - ci,
    {
        let container = &containers[ci];
        let ghost c = cv[ci as int];
        let mut pi: usize = 0;
        while pi < container.ports.len()
            invariant
                0 <= pi <= container.ports@.len(),
                0 <= ci < containers@.len(),
                cv == containers_view(containers@),
                container@ == c,
                c == cv[ci as int],
                links_view(links@) == spec_container_links(cv.take(ci as int), id@, base_domain@)
                    + spec_ports_links(c, id@, base_domain@).take(pi as int),
            decreases container.ports@.len() - pi,
        {
            let port = &container.ports[pi];
            let name = port_route_name(port, &container.name, id);
            let mut url = name;
            proof {
                reveal_strlit(".");
            }
            url.append(".");
            url.append(base_domain);
            let link = Link { url, protocol: port.protocol };
            assert(link@.url =~= spec_link_url(c.ports[pi as int], c.name, id@, base_domain@));
            let ghost prev = links@;
            links.push(link);
            proof {
                let pls = spec_ports_links(c, id@, base_domain@);
                let done = spec_container_links(cv.take(ci as int), id@, base_domain@);
                assert(pls[pi as int] == link@);
                assert forall|k: int| 0 <= k < links@.len() implies links_view(links@)[k] == (done + pls.take(
                    pi + 1,
                ))[k] by {
                    if k < prev.len() {
                        assert(links@[k] == prev[k]);
                        assert(links_view(prev)[k] == (done + pls.take(pi as int))[k]);
                    }
                }
                assert(links_view(links@) =~= done + pls.take(pi + 1));
            }
            pi = pi + 1;
        }
        proof {
            let ghost pls = spec_ports_links(c, id@, base_domain@);
            assert(pls.take(container.ports@.len() as int) =~= pls);
            lemma_container_links_take_step(cv, id@, base_domain@, ci as int);
        }
        ci = ci + 1;
    }
    proof {
        assert(cv.take(containers@.len() as int) =~= cv);
    }
    links
}

/// Relies on fastrand::lowercase: returns a random lowercase ASCII letter.
#[verifier::external_body]
fn random_lowercase() -> (r: char)
    ensures
        'a' <= r && r <= 'z',
{
    fastrand::lowercase()
}

/// Relies on fastrand::choose_multiple: reservoir-samples `amount` items
/// from the source, so it hands back `min(amount, len)` characters, each
/// drawn from the source string.
#[verifier::external_body]
fn random_choose_chars(source: &str, amount: usize) -> (r: Vec<char>)
    ensures
        r@.len() == if amount as int <= source@.len() {
            amount as int
        } else {
            source@.len() as int
        },
        forall|i: int| 0 <= i < r@.len() ==> source@.contains(#[trigger] r@[i]),
{
    fastrand::choose_multiple(source.chars(), amount)
}

/// A well-formed instance id of the given length: first character a
/// lowercase letter, the rest lowercase letters or digits.
pub open spec fn spec_valid_instance_id(s: Seq<char>) -> bool {
    &&& s.len() > 0
    &&& 'a' <= s[0] && s[0] <= 'z'
    &&& forall|i: int| 0 <= i < s.len() ==> spec_is_name_char(#[trigger] s[i])
}

/// Mints a random instance id: a lowercase letter followed by
/// `min(length - 1, 36)` characters drawn from the lowercase-alphanumeric
/// alphabet.
pub fn generate_id(length: usize) -> (r: String)
    requires
        length >= 1,
    ensures
        spec_valid_instance_id(r@),
        r@.len() == 1 + if length - 1 <= 36 {
            (length - 1) as int
        } else {
            36int
        },
{
    let alphabet = "abcdefghijklmnopqrstuvwxyz0123456789";
    proof {
        reveal_strlit("abcdefghijklmnopqrstuvwxyz0123456789");
        assert(alphabet@.len() == 36);
        assert(forall|i: int| 0 <= i < alphabet@.len() ==> spec_is_name_char(#[trigger] alphabet@[i]));
    }
    let first = random_lowercase();
    let rest = random_choose_chars(alphabet, length - 1);
    let mut id = String::new();
    push_char(&mut id, first);
    let mut i: usize = 0;
    while i < rest.len()
        invariant
            0 <= i <= rest@.len(),
            id@.len() == 1 + i,
            'a' <= first && first <= 'z',
            id@[0] == first,
            forall|j: int| 0 <= j < id@.len() ==> spec_is_name_char(#[trigger] id@[j]),
            forall|j: int| 0 <= j < rest@.len() ==> alphabet@.contains(#[trigger] rest@[j]),
        decreases rest@.len() - i,
    {
        let c = rest[i];
        assert(alphabet@.contains(c));
        assert(spec_is_name_char(c));
        push_char(&mut id, c);
        i = i + 1;
    }
    id
}

/// The error every lookup of a missing challenge returns.
pub fn not_found() -> (r: KubeCTFError)
    ensures
        r is NotFound,
        r.spec_message() == "No challenge was found with that id."@,
{
    KubeCTFError::NotFound(String::from_str("No challenge was found with that id."))
}

/// Splits a derived route/link name back into its three components: the
/// part before the first hyphen, the part between the first and last
/// hyphen (empty when the name has a single hyphen), and the part after
/// the last hyphen.
pub open spec fn spec_parse_route_name(s: Seq<char>) -> Option<(Seq<char>, Seq<char>, Seq<char>)> {
    match s.index_of_first('-') {
        Option::None => Option::None,
        Option::Some(f) => match s.index_of_last('-') {
            Option::None => Option::None,
            Option::Some(l) => if f == l {
                Option::Some((s.take(f), Seq::empty(), s.skip(f + 1)))
            } else {
                Option::Some((s.take(f), s.subrange(f + 1, l), s.skip(l + 1)))
            },
        },
    }
}

fn find_hyphen(s: &str) -> (r: Option<usize>)
    ensures
        (match r {
            Some(i) => {
                &&& 0 <= i < s@.len()
                &&& s@[i as int] == '-'
                &&& forall|j: int| 0 <= j < i ==> s@[j] != '-'
            },
            None => forall|j: int| 0 <= j < s@.len() ==> s@[j] != '-',
        }),
{
    let len = s.unicode_len();
    let mut i: usize = 0;
    while i < len
        invariant
            0 <= i <= s@.len(),
            len == s@.len(),
            forall|j: int| 0 <= j < i ==> s@[j] != '-',
        decreases s@.len() - i,
    {
        if s.get_char(i) == '-' {
            return Some(i);
        }
        i = i + 1;
    }
    None
}

fn rfind_hyphen(s: &str) -> (r: Option<usize>)
    ensures
        (match r {
            Some(i) => {
                &&& 0 <= i < s@.len()
                &&& s@[i as int] == '-'
                &&& forall|j: int| i < j < s@.len() ==> s@[j] != '-'
            },
            None => forall|j: int| 0 <= j < s@.len() ==> s@[j] != '-',
        }),
{
    let len = s.unicode_len();
    let mut i: usize = len;
    while i > 0
        invariant
            0 <= i <= s@.len(),
            len == s@.len(),
            forall|j: int| i <= j < s@.len() ==> s@[j] != '-',
        decreases i,
    {
        i = i - 1;
        if s.get_char(i) == '-' {
            return Some(i);
        }
    }
    None
}

/// Parses the route name out of a generated link's host part, recovering
/// the triple the shared naming rule joined.
pub fn parse_route_name(name: &str) -> (r: Option<(String, String, String)>)
    ensures
        (match spec_parse_route_name(name@) {
            Option::Some(t) => r matches Some(p) && p.0@ == t.0 && p.1@ == t.1 && p.2@ == t.2,
            Option::None => r is None,
        }),
{
    proof {
        name@.index_of_first_ensures('-');
        name@.index_of_last_ensures('-');
    }
    let first = match find_hyphen(name) {
        None => {
            assert(!name@.contains('-')) by {
                if name@.contains('-') {
                    let w = choose|w: int| 0 <= w < name@.len() && name@[w] == '-';
                }
            }
            return None;
        },
        Some(f) => f,
    };
    assert(name@.contains('-'));
    let last = match rfind_hyphen(name) {
        None => {
            assert(false);
            return None;
        },
        Some(l) => l,
    };
    proof {
        match name@.index_of_first('-') {
            Option::Some(k) => {
                if k < first {
                    assert(name@[k] != '-');
                }
                if k > first {
                }
            },
            Option::None => {},
        }
        match name@.index_of_last('-') {
            Option::Some(k) => {
                if k > last {
                    assert(name@[k] != '-');
                }
                if k < last {
                }
            },
            Option::None => {},
        }
        assert(name@.index_of_first('-') == Some(first as int));
        assert(name@.index_of_last('-') == Some(last as int));
    }
    let len = name.unicode_len();
    let head = name.substring_char(0, first);
    let tail = name.substring_char(last + 1, len);
    if first == last {
        let middle = String::new();
        assert(head@ =~= name@.take(first as int));
        assert(tail@ =~= name@.skip(first + 1));
        Some((String::from_str(head), middle, String::from_str(tail)))
    } else {
        let middle = name.substring_char(first + 1, last);
        assert(head@ =~= name@.take(first as int));
        assert(middle@ =~= name@.subrange(first + 1, last as int));
        assert(tail@ =~= name@.skip(last + 1));
        Some((String::from_str(head), String::from_str(middle), String::from_str(tail)))
    }
}

/// Round trip of the shared naming rule: a name joined out of hyphen-free
/// components (the first and last non-empty, as a domain-or-port and an
/// instance id always are) parses back into exactly those components.
pub proof fn lemma_route_name_round_trip(d: Seq<char>, c: Seq<char>, i: Seq<char>)
    requires
        d.len() > 0,
        !d.contains('-'),
        !c.contains('-'),
        i.len() > 0,
        !i.contains('-'),
    ensures
        spec_parse_route_name(spec_derived_name(d, c, i)) == Option::Some((d, c, i)),
{
    let name = spec_derived_name(d, c, i);
    name.index_of_first_ensures('-');
    name.index_of_last_ensures('-');
    if c.len() == 0 {
        assert(name =~= d + seq!['-'] + i);
        assert(name[d.len() as int] == '-');
        assert(name.contains('-'));
        let f = name.index_of_first('-').unwrap();
        assert(f == d.len()) by {
            if f < d.len() {
                assert(name[f] == d[f]);
                assert(d.contains(name[f])) by {
                    assert(d[f] == name[f]);
                }
            }
            if f > d.len() {
                assert(name[d.len() as int] != '-');
            }
        }
        let l = name.index_of_last('-').unwrap();
        assert(l == d.len()) by {
            if l > d.len() {
                assert(name[l] == i[l - d.len() - 1]);
                assert(i.contains(name[l])) by {
                    assert(i[l - d.len() - 1] == name[l]);
                }
            }
            if l < d.len() {
                assert(name[d.len() as int] != '-');
            }
        }
        assert(name.take(f) =~= d);
        assert(name.skip(f + 1) =~= i);
    } else {
        assert(name =~= d + seq!['-'] + c + seq!['-'] + i);
        assert(name[d.len() as int] == '-');
        assert(name[d.len() + 1 + c.len() as int] == '-');
        assert(name.contains('-'));
        let f = name.index_of_first('-').unwrap();
        let l = name.index_of_last('-').unwrap();
        assert(f == d.len()) by {
            if f < d.len() {
                assert(name[f] == d[f]);
                assert(d.contains(name[f])) by {
                    assert(d[f] == name[f]);
                }
            }
            if f > d.len() {
                assert(name[d.len() as int] != '-');
            }
        }
        assert(l == d.len() + 1 + c.len()) by {
            if l > d.len() + 1 + c.len() {
                assert(name[l] == i[l - (d.len() + 2 + c.len())]);
                assert(i.contains(name[l])) by {
                    assert(i[l - (d.len() + 2 + c.len())] == name[l]);
                }
            }
            if l < d.len() + 1 + c.len() {
                assert(name[d.len() + 1 + c.len() as int] != '-');
            }
        }
        assert(f != l);
        assert(name.take(f) =~= d);
        assert(name.subrange(f + 1, l) =~= c);
        assert(name.skip(l + 1) =~= i);
    }
}

} // verus!
