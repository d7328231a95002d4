//! Target descriptions: text normalization of target fields, architecture
//! families, and the `TargetInfo` / `ForeignLinkInfo` builders.
use vstd::prelude::*;

use crate::name_set::NameSet;
use crate::text::{ascii_lower, chars_of, copy_opt_string, is_white_space, push_char, text_eq, to_ascii_lower, trim, trim_bounds};

verus! {

/// How one character of a target field is normalized: ASCII letters are
/// lowercased and `_` becomes `-`.
pub open spec fn target_char(c: char) -> char {
    if c == '_' {
        '-'
    } else {
        ascii_lower(c)
    }
}

/// The normalized form of a target field: trimmed of white space, ASCII
/// lowercased, with `_` replaced by `-`.
pub open spec fn normalize_target_spec(s: Seq<char>) -> Seq<char> {
    trim(s).map_values(|c: char| target_char(c))
}

/// The normalized form of an architecture name: a normalized target field,
/// with `arm` spelled `aarch32`.
pub open spec fn normalize_arch_spec(s: Seq<char>) -> Seq<char> {
    let n = normalize_target_spec(s);
    if n == "arm"@ {
        "aarch32"@
    } else {
        n
    }
}

/// The family of a normalized architecture name, if it has one.
pub open spec fn family_of_arch(a: Seq<char>) -> Option<Seq<char>> {
    if a == "x86"@ || a == "x86-64"@ {
        Some("x86"@)
    } else if a == "aarch32"@ || a == "aarch64"@ {
        Some("arm"@)
    } else if a == "rv32"@ || a == "rv64"@ || a == "riscv32"@ || a == "riscv64"@ {
        Some("risc-v"@)
    } else if a == "wasm32"@ || a == "wasm64"@ {
        Some("webassembly"@)
    } else if a == "powerpc"@ || a == "powerpc64"@ {
        Some("powerpc"@)
    } else if a == "mips"@ || a == "mips64"@ {
        Some("mips"@)
    } else if a == "loongarch32"@ || a == "loongarch64"@ {
        Some("loongarch"@)
    } else if a == "s390x"@ {
        Some("ibm-z"@)
    } else {
        None
    }
}

/// The family of an architecture name given in any spelling.
pub open spec fn arch_family_spec(arch: Seq<char>) -> Option<Seq<char>> {
    family_of_arch(normalize_arch_spec(arch))
}

fn target_char_exec(c: char) -> (r: char)
    ensures
        r == target_char(c),
{
    if c == '_' {
        '-'
    } else {
        to_ascii_lower(c)
    }
}

/// Normalizes a target field: trims white space, lowercases ASCII letters and
/// replaces `_` with `-`.
pub fn normalize_target_text(text: &str) -> (out: String)
    ensures
        out@ == normalize_target_spec(text@),
{
    let v = chars_of(text);
    let (start, end) = trim_bounds(&v);
    let ghost kept = v@.subrange(start as int, end as int);
    let mut out = String::new();
    let mut i: usize = start;
    while i < end
        invariant
            start <= i <= end <= v.len(),
            kept == v@.subrange(start as int, end as int),
            out@ == v@.subrange(start as int, i as int).map_values(|c: char| target_char(c)),
        decreases end - i,
    {
        let c = target_char_exec(v[i]);
        push_char(&mut out, c);
        i = i + 1;
        assert(out@ =~= v@.subrange(start as int, i as int).map_values(|c: char| target_char(c)));
    }
    out
}

/// Normalizes an architecture name: a normalized target field, with `arm`
/// spelled `aarch32`.
pub fn normalize_arch_text(text: &str) -> (out: String)
    ensures
        out@ == normalize_arch_spec(text@),
{
    let n = normalize_target_text(text);
    if text_eq(n.as_str(), "arm") {
        "aarch32".to_owned()
    } else {
        n
    }
}

/// The family of an architecture (`x86`, `arm`, `risc-v`, ...), after
/// normalizing its name; `None` for an architecture of no known family.
pub fn arch_family(arch: &str) -> (r: Option<&'static str>)
    ensures
        match r {
            Some(f) => arch_family_spec(arch@) == Some(f@),
            None => arch_family_spec(arch@) is None,
        },
{
    let a = normalize_arch_text(arch);
    let a = a.as_str();
    if text_eq(a, "x86") || text_eq(a, "x86-64") {
        Some("x86")
    } else if text_eq(a, "aarch32") || text_eq(a, "aarch64") {
        Some("arm")
    } else if text_eq(a, "rv32") || text_eq(a, "rv64") || text_eq(a, "riscv32") || text_eq(
        a,
        "riscv64",
    ) {
        Some("risc-v")
    } else if text_eq(a, "wasm32") || text_eq(a, "wasm64") {
        Some("webassembly")
    } else if text_eq(a, "powerpc") || text_eq(a, "powerpc64") {
        Some("powerpc")
    } else if text_eq(a, "mips") || text_eq(a, "mips64") {
        Some("mips")
    } else if text_eq(a, "loongarch32") || text_eq(a, "loongarch64") {
        Some("loongarch")
    } else if text_eq(a, "s390x") {
        Some("ibm-z")
    } else {
        None
    }
}

/// Normalizing a character keeps whether it is white space.
proof fn lemma_target_char_white_space(c: char)
    ensures
        is_white_space(target_char(c)) == is_white_space(c),
        target_char(target_char(c)) == target_char(c),
{
}

/// Normalizing a target field twice gives the same text as normalizing it once.
pub proof fn lemma_normalize_target_idempotent(s: Seq<char>)
    ensures
        normalize_target_spec(normalize_target_spec(s)) == normalize_target_spec(s),
{
    let t = trim(s);
    let r = normalize_target_spec(s);
    crate::text::lemma_trim_shape(s);
    if r.len() > 0 {
        lemma_target_char_white_space(t[0]);
        lemma_target_char_white_space(t.last());
        assert(r.last() == target_char(t.last()));
    }
    crate::text::lemma_trim_of_trimmed(r);
    assert forall|i: int| 0 <= i < r.len() implies target_char(r[i]) == r[i] by {
        lemma_target_char_white_space(t[i]);
    }
    assert(trim(r).map_values(|c: char| target_char(c)) =~= r);
}

/// Normalizing an architecture name twice gives the same name as normalizing it
/// once.
pub proof fn lemma_normalize_arch_idempotent(s: Seq<char>)
    ensures
        normalize_arch_spec(normalize_arch_spec(s)) == normalize_arch_spec(s),
{
    let n = normalize_target_spec(s);
    lemma_normalize_target_idempotent(s);
    if n == "arm"@ {
        reveal_strlit("aarch32");
        reveal_strlit("arm");
        let a = "aarch32"@;
        crate::text::lemma_trim_of_trimmed(a);
        assert(normalize_target_spec(a) =~= a);
        assert(a.len() != "arm"@.len());
    }
}

/// The family of an architecture does not change when its name is normalized
/// first.
pub proof fn lemma_arch_family_of_normalized(s: Seq<char>)
    ensures
        arch_family_spec(normalize_arch_spec(s)) == arch_family_spec(s),
{
    lemma_normalize_arch_idempotent(s);
}

/// The characters of an optional string.
pub open spec fn opt_text(o: Option<String>) -> Option<Seq<char>> {
    match o {
        Some(s) => Some(s@),
        None => None,
    }
}

/// How a foreign item is linked: the library name and the symbol name, each
/// optional.
#[derive(Debug, Clone, Default, PartialEq, Eq)]
pub struct ForeignLinkInfo {
    pub name: Option<String>,
    pub symbol: Option<String>,
}

impl ForeignLinkInfo {
    /// Link information with neither a name nor a symbol.
    pub fn new() -> (out: Self)
        ensures
            out.name is None,
            out.symbol is None,
    {
        ForeignLinkInfo { name: None, symbol: None }
    }

    /// The same link information with the library name set to `name`.
    pub fn with_name(self, name: &str) -> (out: Self)
        ensures
            opt_text(out.name) == Some(name@),
            out.symbol == self.symbol,
    {
        let mut this = self;
        this.name = Some(name.to_owned());
        this
    }

    /// The same link information with the symbol set to `symbol`.
    pub fn with_symbol(self, symbol: &str) -> (out: Self)
        ensures
            opt_text(out.symbol) == Some(symbol@),
            out.name == self.name,
    {
        let mut this = self;
        this.symbol = Some(symbol.to_owned());
        this
    }
}

/// What is known of the compilation target. Text fields hold normalized text
/// (see `normalize_target_text`).
#[derive(Debug, PartialEq, Eq)]
pub struct TargetInfo {
    pub triple: Option<String>,
    pub os: Option<String>,
    pub arch: Option<String>,
    pub arch_family: Option<String>,
    pub env: Option<String>,
    pub abi: Option<String>,
    pub vendor: Option<String>,
    pub family: NameSet,
    pub features: NameSet,
    pub pointer_width: Option<u16>,
    pub endian: Option<String>,
}

/// Whether two target descriptions agree on every field but those named by
/// the flags.
pub open spec fn same_target_except(
    a: TargetInfo,
    b: TargetInfo,
    triple: bool,
    os: bool,
    arch: bool,
    arch_family: bool,
    env: bool,
    abi: bool,
    vendor: bool,
    family: bool,
    features: bool,
    pointer_width: bool,
    endian: bool,
) -> bool {
    &&& (triple || a.triple == b.triple)
    &&& (os || a.os == b.os)
    &&& (arch || a.arch == b.arch)
    &&& (arch_family || a.arch_family == b.arch_family)
    &&& (env || a.env == b.env)
    &&& (abi || a.abi == b.abi)
    &&& (vendor || a.vendor == b.vendor)
    &&& (family || a.family.names() == b.family.names())
    &&& (features || a.features.names() == b.features.names())
    &&& (pointer_width || a.pointer_width == b.pointer_width)
    &&& (endian || a.endian == b.endian)
}

impl Default for TargetInfo {
    /// A target of which nothing is known, as `new` gives.
    fn default() -> (out: Self)
        ensures
            out.triple is None,
            out.os is None,
            out.arch is None,
            out.arch_family is None,
            out.env is None,
            out.abi is None,
            out.vendor is None,
            out.family.view() == Set::<Seq<char>>::empty(),
            out.features.view() == Set::<Seq<char>>::empty(),
            out.pointer_width is None,
            out.endian is None,
    {
        TargetInfo::new()
    }
}

impl Clone for TargetInfo {
    /// A copy with the same fields.
    fn clone(&self) -> (out: Self)
        ensures
            same_target_except(out, *self, false, false, false, false, false, false, false, false, false, false, false),
    {
        TargetInfo {
            triple: copy_opt_string(&self.triple),
            os: copy_opt_string(&self.os),
            arch: copy_opt_string(&self.arch),
            arch_family: copy_opt_string(&self.arch_family),
            env: copy_opt_string(&self.env),
            abi: copy_opt_string(&self.abi),
            vendor: copy_opt_string(&self.vendor),
            family: self.family.clone(),
            features: self.features.clone(),
            pointer_width: self.pointer_width,
            endian: copy_opt_string(&self.endian),
        }
    }
}

impl TargetInfo {
    /// A target of which nothing is known.
    pub fn new() -> (out: Self)
        ensures
            out.triple is None,
            out.os is None,
            out.arch is None,
            out.arch_family is None,
            out.env is None,
            out.abi is None,
            out.vendor is None,
            out.family.view() == Set::<Seq<char>>::empty(),
            out.features.view() == Set::<Seq<char>>::empty(),
            out.pointer_width is None,
            out.endian is None,
    {
        TargetInfo {
            triple: None,
            os: None,
            arch: None,
            arch_family: None,
            env: None,
            abi: None,
            vendor: None,
            family: NameSet::new(),
            features: NameSet::new(),
            pointer_width: None,
            endian: None,
        }
    }

    /// The same target with the normalized `triple`.
    pub fn with_triple(self, triple: &str) -> (out: Self)
        ensures
            opt_text(out.triple) == Some(normalize_target_spec(triple@)),
            same_target_except(
                out,
                self,
                true,
                false,
                false,
                false,
                false,
                false,
                false,
                false,
                false,
                false,
                false,
            ),
    {
        let mut this = self;
        this.triple = Some(normalize_target_text(triple));
        this
    }

    /// The same target with the normalized operating system `os`.
    pub fn with_os(self, os: &str) -> (out: Self)
        ensures
            opt_text(out.os) == Some(normalize_target_spec(os@)),
            same_target_except(
                out,
                self,
                false,
                true,
                false,
                false,
                false,
                false,
                false,
                false,
                false,
                false,
                false,
            ),
    {
        let mut this = self;
        this.os = Some(normalize_target_text(os));
        this
    }

    /// The same target with the normalized architecture `arch`, and its
    /// architecture family set to the family of that architecture (`None` for
    /// an architecture of no known family).
    pub fn with_arch(self, arch: &str) -> (out: Self)
        ensures
            opt_text(out.arch) == Some(normalize_arch_spec(arch@)),
            opt_text(out.arch_family) == arch_family_spec(arch@),
            same_target_except(
                out,
                self,
                false,
                false,
                true,
                true,
                false,
                false,
                false,
                false,
                false,
                false,
                false,
            ),
    {
        let mut this = self;
        let normalized = normalize_arch_text(arch);
        let family = arch_family(normalized.as_str());
        proof {
            lemma_arch_family_of_normalized(arch@);
        }
        this.arch_family = match family {
            Some(f) => Some(f.to_owned()),
            None => None,
        };
        this.arch = Some(normalized);
        this
    }

    /// The same target with the normalized architecture family `arch_family`.
    pub fn with_arch_family(self, arch_family: &str) -> (out: Self)
        ensures
            opt_text(out.arch_family) == Some(normalize_target_spec(arch_family@)),
            same_target_except(
                out,
                self,
                false,
                false,
                false,
                true,
                false,
                false,
                false,
                false,
                false,
                false,
                false,
            ),
    {
        let mut this = self;
        this.arch_family = Some(normalize_target_text(arch_family));
        this
    }

    /// The same target with the normalized environment `env`.
    pub fn with_env(self, env: &str) -> (out: Self)
        ensures
            opt_text(out.env) == Some(normalize_target_spec(env@)),
            same_target_except(
                out,
                self,
                false,
                false,
                false,
                false,
                true,
                false,
                false,
                false,
                false,
                false,
                false,
            ),
    {
        let mut this = self;
        this.env = Some(normalize_target_text(env));
        this
    }

    /// The same target with the normalized ABI `abi`.
    pub fn with_abi(self, abi: &str) -> (out: Self)
        ensures
            opt_text(out.abi) == Some(normalize_target_spec(abi@)),
            same_target_except(
                out,
                self,
                false,
                false,
                false,
                false,
                false,
                true,
                false,
                false,
                false,
                false,
                false,
            ),
    {
        let mut this = self;
        this.abi = Some(normalize_target_text(abi));
        this
    }

    /// The same target with the normalized vendor `vendor`.
    pub fn with_vendor(self, vendor: &str) -> (out: Self)
        ensures
            opt_text(out.vendor) == Some(normalize_target_spec(vendor@)),
            same_target_except(
                out,
                self,
                false,
                false,
                false,
                false,
                false,
                false,
                true,
                false,
                false,
                false,
                false,
            ),
    {
        let mut this = self;
        this.vendor = Some(normalize_target_text(vendor));
        this
    }

    /// The same target with its features replaced by the normalized `features`.
    pub fn with_features(self, features: &Vec<String>) -> (out: Self)
        ensures
            out.features.view() == features@.map_values(
                |f: String| normalize_target_spec(f@),
            ).to_set(),
            same_target_except(
                out,
                self,
                false,
                false,
                false,
                false,
                false,
                false,
                false,
                false,
                true,
                false,
                false,
            ),
    {
        let mut this = self;
        let mut set = NameSet::new();
        let mut i: usize = 0;
        while i < features.len()
            invariant
                i <= features.len(),
                set.view() == features@.subrange(0, i as int).map_values(
                    |f: String| normalize_target_spec(f@),
                ).to_set(),
            decreases features.len() - i,
        {
            let name = normalize_target_text(features[i].as_str());
            let _ = set.insert(name);
            proof {
                let before = features@.subrange(0, i as int).map_values(
                    |f: String| normalize_target_spec(f@),
                );
                let after = features@.subrange(0, i + 1).map_values(
                    |f: String| normalize_target_spec(f@),
                );
                assert(after =~= before.push(normalize_target_spec(features@[i as int]@)));
                before.lemma_push_to_set_commute(normalize_target_spec(features@[i as int]@));
            }
            i = i + 1;
        }
        assert(features@.subrange(0, i as int) =~= features@);
        this.features = set;
        this
    }

    /// The same target with the normalized `family` added to its families.
    pub fn with_family(self, family: &str) -> (out: Self)
        ensures
            out.family.view() == self.family.view().insert(normalize_target_spec(family@)),
            same_target_except(
                out,
                self,
                false,
                false,
                false,
                false,
                false,
                false,
                false,
                true,
                false,
                false,
                false,
            ),
    {
        let mut this = self;
        let mut set = this.family.copy();
        let _ = set.insert(normalize_target_text(family));
        this.family = set;
        this
    }

    /// The same target with pointer width `pointer_width`.
    pub fn with_pointer_width(self, pointer_width: u16) -> (out: Self)
        ensures
            out.pointer_width == Some(pointer_width),
            same_target_except(
                out,
                self,
                false,
                false,
                false,
                false,
                false,
                false,
                false,
                false,
                false,
                true,
                false,
            ),
    {
        let mut this = self;
        this.pointer_width = Some(pointer_width);
        this
    }

    /// The same target with the normalized byte order `endian`.
    pub fn with_endian(self, endian: &str) -> (out: Self)
        ensures
            opt_text(out.endian) == Some(normalize_target_spec(endian@)),
            same_target_except(
                out,
                self,
                false,
                false,
                false,
                false,
                false,
                false,
                false,
                false,
                false,
                false,
                true,
            ),
    {
        let mut this = self;
        this.endian = Some(normalize_target_text(endian));
        this
    }
}

} // verus!
