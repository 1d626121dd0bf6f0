//! Specification links: the `@link` applications of a schema, the URL that
//! each carries, and the versions of the join specification that extraction
//! understands.
use crate::schema::{
    ArgValue, ArgValueView, ArgumentView, Directive, DirectiveView, Schema, SchemaView,
};
use crate::seqs::{first_where, lemma_first_where_is, lemma_first_where_none};
use crate::text::{chars_of, str_eq};
use vstd::prelude::*;
use vstd::string::*;

verus! {

/// A specification version, `major.minor`.
#[derive(Debug, Clone, Copy, PartialEq, Eq, Structural)]
pub struct Version {
    pub major: u32,
    pub minor: u32,
}

/// The position of the last occurrence of `c` in `s`.
pub open spec fn last_index(s: Seq<char>, c: char) -> Option<int>
    decreases s.len(),
{
    if s.len() == 0 {
        None
    } else if s.last() == c {
        Some(s.len() - 1)
    } else {
        last_index(s.drop_last(), c)
    }
}

/// The value of a decimal digit.
pub open spec fn digit(c: char) -> Option<nat> {
    if '0' <= c && c <= '9' {
        Some((c as u32 - '0' as u32) as nat)
    } else {
        None
    }
}

/// The number that a non-empty run of decimal digits writes.
pub open spec fn decimal(s: Seq<char>) -> Option<nat>
    decreases s.len(),
{
    if s.len() == 0 {
        None
    } else if s.len() == 1 {
        digit(s[0])
    } else {
        match (decimal(s.drop_last()), digit(s.last())) {
            (Some(a), Some(d)) => Some(a * 10 + d),
            _ => None,
        }
    }
}

/// The number that `s` writes, where it fits in 32 bits.
pub open spec fn parse_u32(s: Seq<char>) -> Option<u32> {
    match decimal(s) {
        Some(n) => if n <= u32::MAX {
            Some(n as u32)
        } else {
            None
        },
        None => None,
    }
}

/// The version that `s` writes: `v`, a number, a dot, a number.
#[verifier::opaque]
pub open spec fn parse_version(s: Seq<char>) -> Option<Version> {
    if s.len() == 0 || s[0] != 'v' {
        None
    } else {
        let rest = s.skip(1);
        match first_where(rest, |c: char| c == '.') {
            None => None,
            Some(dot) => match (parse_u32(rest.take(dot)), parse_u32(rest.skip(dot + 1))) {
                (Some(major), Some(minor)) => Some(Version { major, minor }),
                _ => None,
            },
        }
    }
}

/// The parts of a specification URL.
pub struct UrlView {
    pub domain: Seq<char>,
    pub name: Seq<char>,
    pub version: Version,
}

/// The parts of the specification URL `s`: what follows the last slash is the
/// version, the path segment before it the specification's name, and the rest
/// its domain.
#[verifier::opaque]
pub open spec fn parse_url(s: Seq<char>) -> Option<UrlView> {
    match last_index(s, '/') {
        None => None,
        Some(i) => match parse_version(s.skip(i + 1)) {
            None => None,
            Some(version) => {
                let rest = s.take(i);
                match last_index(rest, '/') {
                    None => None,
                    Some(j) => if j + 1 == rest.len() {
                        None
                    } else {
                        Some(UrlView { domain: rest.take(j), name: rest.skip(j + 1), version })
                    },
                }
            },
        }
    }
}

/// Every prefix of a run of digits is a run of digits, and writes no more
/// than the whole.
proof fn lemma_decimal_prefix(s: Seq<char>, k: int)
    requires
        1 <= k <= s.len(),
        decimal(s) is Some,
    ensures
        decimal(s.take(k)) is Some,
        decimal(s.take(k))->0 <= decimal(s)->0,
    decreases s.len(),
{
    if k == s.len() {
        assert(s.take(k) =~= s);
    } else {
        assert(s.len() >= 2);
        lemma_decimal_prefix(s.drop_last(), k);
        assert(s.drop_last().take(k) =~= s.take(k));
    }
}

/// The position of the last occurrence of `c` among the first `n` characters.
fn find_last(chars: &Vec<char>, n: usize, c: char) -> (r: Option<usize>)
    requires
        n <= chars.len(),
    ensures
        match r {
            Some(i) => last_index(chars@.take(n as int), c) == Some(i as int) && i < n,
            None => last_index(chars@.take(n as int), c).is_none(),
        },
{
    let mut i: usize = n;
    while i > 0
        invariant
            i <= n <= chars.len(),
            last_index(chars@.take(n as int), c) == last_index(chars@.take(i as int), c),
        decreases i,
    {
        assert(chars@.take(i as int).last() == chars@[i - 1]);
        assert(chars@.take(i as int).drop_last() =~= chars@.take(i - 1));
        if chars[i - 1] == c {
            return Some(i - 1);
        }
        i -= 1;
    }
    None
}

/// The number that the characters from `from` up to `to` write, where it fits
/// in 32 bits.
fn read_u32(chars: &Vec<char>, from: usize, to: usize) -> (r: Option<u32>)
    requires
        from <= to <= chars.len(),
    ensures
        r == parse_u32(chars@.subrange(from as int, to as int)),
{
    let ghost s = chars@.subrange(from as int, to as int);
    if from == to {
        return None;
    }
    let mut acc: u32 = 0;
    let mut i: usize = from;
    while i < to
        invariant
            from <= i <= to <= chars.len(),
            s == chars@.subrange(from as int, to as int),
            i > from ==> decimal(s.take(i - from)) == Some(acc as nat),
            i == from ==> acc == 0,
        decreases to - i,
    {
        let c = chars[i];
        let ghost pre = s.take(i - from);
        let ghost cur = s.take(i - from + 1);
        assert(cur.last() == c);
        assert(cur.drop_last() =~= pre);
        if !(c >= '0' && c <= '9') {
            proof {
                assert(decimal(cur).is_none());
                if decimal(s) is Some {
                    lemma_decimal_prefix(s, i - from + 1);
                }
            }
            return None;
        }
        let d: u32 = c as u32 - '0' as u32;
        if acc > (u32::MAX - d) / 10 {
            proof {
                assert(acc as nat * 10 + d as nat > u32::MAX);
                assert(decimal(cur) == Some(acc as nat * 10 + d as nat));
                if decimal(s) is Some {
                    lemma_decimal_prefix(s, i - from + 1);
                }
            }
            return None;
        }
        acc = acc * 10 + d;
        i += 1;
    }
    assert(s.take(to - from) =~= s);
    Some(acc)
}

/// The version that the characters from `from` on write.
fn read_version(chars: &Vec<char>, from: usize) -> (r: Option<Version>)
    requires
        from <= chars.len(),
    ensures
        r == parse_version(chars@.skip(from as int)),
{
    reveal(parse_version);
    let ghost s = chars@.skip(from as int);
    if from == chars.len() || chars[from] != 'v' {
        return None;
    }
    let ghost rest = s.skip(1);
    let ghost p = |c: char| c == '.';
    let mut dot: usize = from + 1;
    while dot < chars.len() && chars[dot] != '.'
        invariant
            from + 1 <= dot <= chars.len(),
            rest == chars@.skip(from as int).skip(1),
            p == (|c: char| c == '.'),
            forall|j: int| 0 <= j < dot - from - 1 ==> !p(#[trigger] rest[j]),
        decreases chars.len() - dot,
    {
        assert(rest[dot - from - 1] == chars@[dot as int]);
        dot += 1;
    }
    if dot == chars.len() {
        proof {
            lemma_first_where_none(rest, p);
        }
        return None;
    }
    proof {
        assert(rest[dot - from - 1] == chars@[dot as int]);
        lemma_first_where_is(rest, p, dot - from - 1);
        assert(rest.take(dot - from - 1) =~= chars@.subrange(from + 1, dot as int));
        assert(rest.skip(dot - from) =~= chars@.subrange(dot + 1, chars.len() as int));
    }
    let major = read_u32(chars, from + 1, dot);
    let minor = read_u32(chars, dot + 1, chars.len());
    match (major, minor) {
        (Some(major), Some(minor)) => Some(Version { major, minor }),
        _ => None,
    }
}

/// The parts of a specification URL.
#[derive(Debug, PartialEq, Eq)]
pub struct Url {
    pub domain: String,
    pub name: String,
    pub version: Version,
}

impl View for Url {
    type V = UrlView;

    open spec fn view(&self) -> UrlView {
        UrlView { domain: self.domain@, name: self.name@, version: self.version }
    }
}

impl Url {
    /// Reads a specification URL such as `https://specs.apollo.dev/join/v0.3`.
    pub fn parse(text: &str) -> (r: Option<Url>)
        ensures
            r.is_some() == parse_url(text@).is_some(),
            r matches Some(u) ==> Some(u@) == parse_url(text@),
    {
        reveal(parse_url);
        let chars = chars_of(text);
        assert(chars@.take(chars.len() as int) =~= chars@);
        let i = match find_last(&chars, chars.len(), '/') {
            None => {
                return None;
            },
            Some(i) => i,
        };
        let version = match read_version(&chars, i + 1) {
            None => {
                return None;
            },
            Some(v) => v,
        };
        let j = match find_last(&chars, i, '/') {
            None => {
                return None;
            },
            Some(j) => j,
        };
        if j + 1 == i {
            return None;
        }
        let domain = String::from_str(text.substring_char(0, j));
        let name = String::from_str(text.substring_char(j + 1, i));
        proof {
            let rest = text@.take(i as int);
            assert(rest.take(j as int) =~= text@.subrange(0, j as int));
            assert(rest.skip(j + 1) =~= text@.subrange(j + 1, i as int));
        }
        Some(Url { domain, name, version })
    }
}

impl DirectiveView {
    /// The value of the first argument named `name`.
    pub open spec fn argument(self, name: Seq<char>) -> Option<ArgValueView> {
        match first_where(self.arguments, |a: ArgumentView| a.name == name) {
            Some(i) => Some(self.arguments[i].value),
            None => None,
        }
    }
}

impl Directive {
    /// The value of the first argument named `name`.
    pub fn argument(&self, name: &str) -> (r: Option<&ArgValue>)
        ensures
            r.is_some() == self@.argument(name@).is_some(),
            r matches Some(v) ==> Some(v@) == self@.argument(name@),
    {
        let ghost p = |a: ArgumentView| a.name == name@;
        let mut i: usize = 0;
        while i < self.arguments.len()
            invariant
                i <= self.arguments.len(),
                p == (|a: ArgumentView| a.name == name@),
                forall|j: int| 0 <= j < i ==> !p(#[trigger] self@.arguments[j]),
            decreases self.arguments.len() - i,
        {
            if str_eq(self.arguments[i].name.as_str(), name) {
                proof {
                    lemma_first_where_is(self@.arguments, p, i as int);
                }
                return Some(&self.arguments[i].value);
            }
            i += 1;
        }
        proof {
            lemma_first_where_none(self@.arguments, p);
        }
        None
    }
}

/// The domain of the specifications that extraction knows.
pub open spec fn apollo_domain() -> Seq<char> {
    "https://specs.apollo.dev"@
}

/// The mathematical value of a `Link`.
pub struct LinkView {
    pub url: UrlView,
    pub spec_name: Seq<char>,
}

/// A specification that a schema links: its URL and the name under which the
/// schema knows it, which prefixes the names of the specification's own
/// elements.
#[derive(Debug, PartialEq, Eq)]
pub struct Link {
    pub url: Url,
    pub spec_name: String,
}

impl View for Link {
    type V = LinkView;

    open spec fn view(&self) -> LinkView {
        LinkView { url: self.url@, spec_name: self.spec_name@ }
    }
}

/// The link that the directive application `d` declares: an `@link` with a
/// `url`, or an `@core` with a `feature`, whose text is a specification URL.
/// The name in the schema is the `as` argument where there is one, and the
/// specification's own name otherwise.
pub open spec fn link_of(d: DirectiveView) -> Option<LinkView> {
    let target = if d.name == "link"@ {
        d.argument("url"@)
    } else if d.name == "core"@ {
        d.argument("feature"@)
    } else {
        None
    };
    match target {
        Some(ArgValueView::Str(text)) => match parse_url(text) {
            Some(url) => Some(
                LinkView {
                    url,
                    spec_name: match d.argument("as"@) {
                        Some(ArgValueView::Str(alias)) => alias,
                        _ => url.name,
                    },
                },
            ),
            None => None,
        },
        _ => None,
    }
}

/// Whether `d` links the specification `name` of the known domain.
pub open spec fn links_to(d: DirectiveView, name: Seq<char>) -> bool {
    match link_of(d) {
        Some(l) => l.url.domain == apollo_domain() && l.url.name == name,
        None => false,
    }
}

impl SchemaView {
    /// The first link of the schema to the specification `name` of the known
    /// domain.
    pub open spec fn find_link(self, name: Seq<char>) -> Option<LinkView> {
        match first_where(self.directives, |d: DirectiveView| links_to(d, name)) {
            Some(i) => link_of(self.directives[i]),
            None => None,
        }
    }

    /// Whether the schema declares the linking specification, under either of
    /// its names.
    pub open spec fn is_core_schema(self) -> bool {
        self.find_link("link"@).is_some() || self.find_link("core"@).is_some()
    }
}

/// The link that the directive application `d` declares.
pub fn read_link(d: &Directive) -> (r: Option<Link>)
    ensures
        r.is_some() == link_of(d@).is_some(),
        r matches Some(l) ==> Some(l@) == link_of(d@),
{
    let target = if str_eq(d.name.as_str(), "link") {
        d.argument("url")
    } else if str_eq(d.name.as_str(), "core") {
        d.argument("feature")
    } else {
        None
    };
    let text = match target {
        Some(ArgValue::Str(text)) => text,
        _ => {
            return None;
        },
    };
    let url = match Url::parse(text.as_str()) {
        Some(url) => url,
        None => {
            return None;
        },
    };
    let spec_name = match d.argument("as") {
        Some(ArgValue::Str(alias)) => alias.clone(),
        _ => url.name.clone(),
    };
    Some(Link { url, spec_name })
}

impl Schema {
    /// The first link of the schema to the specification `name` of the known
    /// domain.
    pub fn find_link(&self, name: &str) -> (r: Option<Link>)
        ensures
            r.is_some() == self@.find_link(name@).is_some(),
            r matches Some(l) ==> Some(l@) == self@.find_link(name@),
    {
        let ghost p = |d: DirectiveView| links_to(d, name@);
        let mut i: usize = 0;
        while i < self.directives.len()
            invariant
                i <= self.directives.len(),
                p == (|d: DirectiveView| links_to(d, name@)),
                forall|j: int| 0 <= j < i ==> !p(#[trigger] self@.directives[j]),
            decreases self.directives.len() - i,
        {
            match read_link(&self.directives[i]) {
                Some(l) => {
                    if str_eq(l.url.domain.as_str(), "https://specs.apollo.dev") && str_eq(
                        l.url.name.as_str(),
                        name,
                    ) {
                        proof {
                            lemma_first_where_is(self@.directives, p, i as int);
                        }
                        return Some(l);
                    }
                },
                None => {},
            }
            i += 1;
        }
        proof {
            lemma_first_where_none(self@.directives, p);
        }
        None
    }

    /// Whether the schema declares the linking specification, under either of
    /// its names.
    pub fn is_core_schema(&self) -> (r: bool)
        ensures
            r == self@.is_core_schema(),
    {
        self.find_link("link").is_some() || self.find_link("core").is_some()
    }
}

} // verus!
