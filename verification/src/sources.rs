//! The source registry: the closed set of package sources, each with a
//! stable name, an ecosystem tag and a locality flag, in a fixed default
//! precedence order.

use vstd::prelude::*;

verus! {

/// The unit across which version comparisons are meaningful: two sources
/// may be compared only when they share an ecosystem.
#[derive(Clone, Copy, Debug, PartialEq, Eq, Structural)]
pub enum Ecosystem {
    System,
    Python,
    Npm,
    Cargo,
    Go,
    Ruby,
    Beam,
    Dart,
    Php,
    Jvm,
    Dotnet,
    Swift,
    Container,
}

/// A source of the registry, by stable name.
#[derive(Clone, Copy, Debug, PartialEq, Eq, Structural)]
pub enum SourceType {
    Path,
    Brew,
    Apt,
    Npm,
    Uv,
    Pip,
    Go,
    Cargo,
    Gem,
    Hex,
    Pub,
}

impl SourceType {
    /// The stable name of this source.
    pub open spec fn spec_name(self) -> Seq<char> {
        match self {
            SourceType::Path => "path"@,
            SourceType::Brew => "brew"@,
            SourceType::Apt => "apt"@,
            SourceType::Npm => "npm"@,
            SourceType::Uv => "uv"@,
            SourceType::Pip => "pip"@,
            SourceType::Go => "go"@,
            SourceType::Cargo => "cargo"@,
            SourceType::Gem => "gem"@,
            SourceType::Hex => "hex"@,
            SourceType::Pub => "pub"@,
        }
    }

    /// Whether this source reports what is installed on the machine rather
    /// than what a registry offers.
    pub open spec fn spec_local(self) -> bool {
        match self {
            SourceType::Path => true,
            SourceType::Uv => true,
            SourceType::Pip => true,
            _ => false,
        }
    }

    /// The ecosystem this source belongs to.
    pub open spec fn spec_ecosystem(self) -> Ecosystem {
        match self {
            SourceType::Path => Ecosystem::System,
            SourceType::Brew => Ecosystem::System,
            SourceType::Apt => Ecosystem::System,
            SourceType::Npm => Ecosystem::Npm,
            SourceType::Uv => Ecosystem::Python,
            SourceType::Pip => Ecosystem::Python,
            SourceType::Go => Ecosystem::Go,
            SourceType::Cargo => Ecosystem::Cargo,
            SourceType::Gem => Ecosystem::Ruby,
            SourceType::Hex => Ecosystem::Beam,
            SourceType::Pub => Ecosystem::Dart,
        }
    }

    pub fn as_str(&self) -> (r: &'static str)
        ensures
            r@ == self.spec_name(),
    {
        match self {
            SourceType::Path => "path",
            SourceType::Brew => "brew",
            SourceType::Apt => "apt",
            SourceType::Npm => "npm",
            SourceType::Uv => "uv",
            SourceType::Pip => "pip",
            SourceType::Go => "go",
            SourceType::Cargo => "cargo",
            SourceType::Gem => "gem",
            SourceType::Hex => "hex",
            SourceType::Pub => "pub",
        }
    }

    pub fn is_local(&self) -> (r: bool)
        ensures
            r == self.spec_local(),
    {
        match self {
            SourceType::Path => true,
            SourceType::Uv => true,
            SourceType::Pip => true,
            _ => false,
        }
    }

    pub fn ecosystem(&self) -> (r: Ecosystem)
        ensures
            r == self.spec_ecosystem(),
    {
        match self {
            SourceType::Path => Ecosystem::System,
            SourceType::Brew => Ecosystem::System,
            SourceType::Apt => Ecosystem::System,
            SourceType::Npm => Ecosystem::Npm,
            SourceType::Uv => Ecosystem::Python,
            SourceType::Pip => Ecosystem::Python,
            SourceType::Go => Ecosystem::Go,
            SourceType::Cargo => Ecosystem::Cargo,
            SourceType::Gem => Ecosystem::Ruby,
            SourceType::Hex => Ecosystem::Beam,
            SourceType::Pub => Ecosystem::Dart,
        }
    }
}

/// The registry in its declaration order, which is also the default
/// precedence order.
pub open spec fn spec_registry() -> Seq<SourceType> {
    seq![
        SourceType::Path,
        SourceType::Brew,
        SourceType::Apt,
        SourceType::Npm,
        SourceType::Uv,
        SourceType::Pip,
        SourceType::Go,
        SourceType::Cargo,
        SourceType::Gem,
        SourceType::Hex,
        SourceType::Pub,
    ]
}

/// Registry lookup by exact name: the source so named, absent for an
/// unknown name.
pub open spec fn spec_source_of(n: Seq<char>) -> Option<SourceType> {
    if n == "path"@ {
        Option::Some(SourceType::Path)
    } else if n == "brew"@ {
        Option::Some(SourceType::Brew)
    } else if n == "apt"@ {
        Option::Some(SourceType::Apt)
    } else if n == "npm"@ {
        Option::Some(SourceType::Npm)
    } else if n == "uv"@ {
        Option::Some(SourceType::Uv)
    } else if n == "pip"@ {
        Option::Some(SourceType::Pip)
    } else if n == "go"@ {
        Option::Some(SourceType::Go)
    } else if n == "cargo"@ {
        Option::Some(SourceType::Cargo)
    } else if n == "gem"@ {
        Option::Some(SourceType::Gem)
    } else if n == "hex"@ {
        Option::Some(SourceType::Hex)
    } else if n == "pub"@ {
        Option::Some(SourceType::Pub)
    } else {
        Option::None
    }
}

/// Character-for-character string equality.
pub fn str_eq(a: &str, b: &str) -> (r: bool)
    ensures
        r == (a@ == b@),
{
    let n = a.unicode_len();
    let m = b.unicode_len();
    if n != m {
        return false;
    }
    let mut i: usize = 0;
    while i < n
        invariant
            n == a@.len(),
            n == b@.len(),
            i <= n,
            forall|j: int| 0 <= j < i ==> a@[j] == b@[j],
        decreases n - i,
    {
        if a.get_char(i) != b.get_char(i) {
            return false;
        }
        i += 1;
    }
    proof {
        assert(a@ =~= b@);
    }
    true
}

/// Resolve a source name to its registry entry; an unknown name resolves
/// to nothing.
pub fn source_by_name(name: &str) -> (r: Option<SourceType>)
    ensures
        r == spec_source_of(name@),
{
    if str_eq(name, "path") {
        Option::Some(SourceType::Path)
    } else if str_eq(name, "brew") {
        Option::Some(SourceType::Brew)
    } else if str_eq(name, "apt") {
        Option::Some(SourceType::Apt)
    } else if str_eq(name, "npm") {
        Option::Some(SourceType::Npm)
    } else if str_eq(name, "uv") {
        Option::Some(SourceType::Uv)
    } else if str_eq(name, "pip") {
        Option::Some(SourceType::Pip)
    } else if str_eq(name, "go") {
        Option::Some(SourceType::Go)
    } else if str_eq(name, "cargo") {
        Option::Some(SourceType::Cargo)
    } else if str_eq(name, "gem") {
        Option::Some(SourceType::Gem)
    } else if str_eq(name, "hex") {
        Option::Some(SourceType::Hex)
    } else if str_eq(name, "pub") {
        Option::Some(SourceType::Pub)
    } else {
        Option::None
    }
}

/// The default precedence: every registered source, in declaration order.
pub fn default_precedence() -> (r: Vec<SourceType>)
    ensures
        r@ == spec_registry(),
{
    let mut v: Vec<SourceType> = Vec::new();
    v.push(SourceType::Path);
    v.push(SourceType::Brew);
    v.push(SourceType::Apt);
    v.push(SourceType::Npm);
    v.push(SourceType::Uv);
    v.push(SourceType::Pip);
    v.push(SourceType::Go);
    v.push(SourceType::Cargo);
    v.push(SourceType::Gem);
    v.push(SourceType::Hex);
    v.push(SourceType::Pub);
    proof {
        assert(v@ =~= spec_registry());
    }
    v
}

/// The descriptor of a source: its stable name, its locality and its
/// ecosystem.
pub struct SourceInfo {
    pub name: String,
    pub local: bool,
    pub ecosystem: Ecosystem,
}

impl SourceInfo {
    /// Whether this descriptor describes the registry entry `st`.
    pub open spec fn describes(self, st: SourceType) -> bool {
        self.name@ == st.spec_name() && self.local == st.spec_local() && self.ecosystem
            == st.spec_ecosystem()
    }

    /// The descriptor of a registry entry.
    pub fn of(st: &SourceType) -> (r: SourceInfo)
        ensures
            r.describes(*st),
    {
        SourceInfo { name: st.as_str().to_owned(), local: st.is_local(), ecosystem: st.ecosystem() }
    }
}

/// Every registered source's descriptor, in declaration order.
pub fn all_sources() -> (r: Vec<SourceInfo>)
    ensures
        r@.len() == spec_registry().len(),
        forall|i: int| 0 <= i < r@.len() ==> #[trigger] r@[i].describes(spec_registry()[i]),
{
    let order = default_precedence();
    let mut r: Vec<SourceInfo> = Vec::new();
    let mut i: usize = 0;
    while i < order.len()
        invariant
            order@ == spec_registry(),
            i <= order@.len(),
            r@.len() == i,
            forall|j: int| 0 <= j < i ==> #[trigger] r@[j].describes(spec_registry()[j]),
        decreases order@.len() - i,
    {
        r.push(SourceInfo::of(&order[i]));
        i += 1;
    }
    r
}

/// Parse a package argument, extracting an optional source prefix: an
/// argument of the form `name:package` whose `name` is a registered
/// source splits into the two; anything else is all package.
pub fn parse_package_arg(arg: &str) -> (r: (Option<String>, String))
    ensures
        spec_parse_package_arg(arg@, r),
{
    let n = arg.unicode_len();
    let mut i: usize = 0;
    while i < n
        invariant
            n == arg@.len(),
            i <= n,
            forall|j: int| 0 <= j < i ==> arg@[j] != ':',
        decreases n - i,
    {
        if arg.get_char(i) == ':' {
            proof {
                assert(first_colon_at(arg@, i as int));
                assert forall|k: int| #[trigger] first_colon_at(arg@, k) implies k == i as int by {
                    if k < i as int {
                        assert(arg@[k] != ':');
                    } else if k > i as int {
                        assert(arg@[i as int] != ':');
                    }
                }
                assert(!(forall|k: int| 0 <= k < arg@.len() ==> arg@[k] != ':')) by {
                    assert(arg@[i as int] == ':');
                }
            }
            let prefix = arg.substring_char(0, i);
            if let Option::Some(_) = source_by_name(prefix) {
                let rest = arg.substring_char(i + 1, n);
                return (Option::Some(prefix.to_owned()), rest.to_owned());
            } else {
                return (Option::None, arg.to_owned());
            }
        }
        i += 1;
    }
    (Option::None, arg.to_owned())
}

/// `i` is the position of the first `:` in `arg`.
pub open spec fn first_colon_at(arg: Seq<char>, i: int) -> bool {
    0 <= i < arg.len() && arg[i] == ':' && (forall|j: int| 0 <= j < i ==> arg[j] != ':')
}

/// The pair `r` is the split of `arg` at colon position `i`: when the text
/// before `i` names a registered source, the prefix and the rest; else the
/// whole argument as package.
pub open spec fn splits_at(arg: Seq<char>, i: int, r: (Option<String>, String)) -> bool {
    if spec_source_of(arg.take(i)) is Some {
        r.0 matches Some(p) && p@ == arg.take(i) && r.1@ == arg.skip(i + 1)
    } else {
        r.0 is None && r.1@ == arg
    }
}

/// What `parse_package_arg` returns for `arg`: a split at the first colon
/// when its prefix is a registered source name, the whole argument as the
/// package otherwise.
pub open spec fn spec_parse_package_arg(arg: Seq<char>, r: (Option<String>, String)) -> bool {
    &&& forall|i: int| #[trigger] first_colon_at(arg, i) ==> splits_at(arg, i, r)
    &&& (forall|i: int| 0 <= i < arg.len() ==> arg[i] != ':') ==> (r.0 is None && r.1@ == arg)
}

} // verus!
