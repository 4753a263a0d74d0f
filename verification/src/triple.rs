//! Target-triple interpretation: from a raw platform identifier string to
//! the assembler output-format flag.
//!
//! An identifier is conventionally `ARCH-VENDOR-OS[-ENVIRONMENT]`, optionally
//! prefixed with a path; only the segment after the last path separator is
//! interpreted. Unrecognized architectures and operating systems resolve to
//! the empty flag (the assembler's native default) rather than failing.

use vstd::prelude::*;
use vstd::string::StrSliceExecFns;

verus! {

/// Architecture named by the first component of a triple.
pub enum Arch {
    X86,
    X86_64,
    Unrecognized,
}

/// The suffix of `s` after the last `/`, or `s` itself when none occurs.
pub open spec fn strip_path(s: Seq<char>) -> Seq<char>
    decreases s.len(),
{
    if s.len() == 0 {
        s
    } else if s.last() == '/' {
        Seq::<char>::empty()
    } else {
        strip_path(s.drop_last()).push(s.last())
    }
}

/// The dash-separated components of `s`, empty components included, exactly
/// as splitting on `-` yields them: the empty string has one empty component.
pub open spec fn components(s: Seq<char>) -> Seq<Seq<char>>
    decreases s.len(),
{
    if s.len() == 0 {
        seq![Seq::<char>::empty()]
    } else if s.last() == '-' {
        components(s.drop_last()).push(Seq::<char>::empty())
    } else {
        let r = components(s.drop_last());
        r.update(r.len() - 1, r.last().push(s.last()))
    }
}

/// Splitting always yields at least one component.
pub proof fn lemma_components_nonempty(s: Seq<char>)
    ensures
        components(s).len() >= 1,
    decreases s.len(),
{
    if s.len() != 0 {
        lemma_components_nonempty(s.drop_last());
    }
}

/// Architecture denoted by a triple's first component: an exact match
/// against `x86_64` and `x86`.
pub open spec fn arch_of(c: Seq<char>) -> Arch {
    if c == "x86_64"@ {
        Arch::X86_64
    } else if c == "x86"@ {
        Arch::X86
    } else {
        Arch::Unrecognized
    }
}

/// Operating system of a component sequence: the third component, defaulted
/// to `none` when fewer than three components are present.
pub open spec fn os_of(parts: Seq<Seq<char>>) -> Seq<char> {
    if parts.len() < 3 {
        "none"@
    } else {
        parts[2]
    }
}

/// Output-format flag for 64-bit x86, by operating system.
pub open spec fn format_for_x86_64(os: Seq<char>) -> Seq<char> {
    if os == "linux"@ {
        "-felf64"@
    } else if os == "darwin"@ {
        "-felf64"@
    } else if os == "windows"@ {
        "-fwin64"@
    } else if os == "none"@ {
        "-felf64"@
    } else {
        ""@
    }
}

/// Output-format flag for 32-bit x86, by operating system.
pub open spec fn format_for_x86(os: Seq<char>) -> Seq<char> {
    if os == "linux"@ {
        "-felf32"@
    } else if os == "darwin"@ {
        "-fmachos32"@
    } else if os == "windows"@ {
        "-fwin32"@
    } else if os == "none"@ {
        "-felf32"@
    } else {
        ""@
    }
}

/// The total, pure mapping from (architecture, operating system) to the
/// output-format flag. Empty means "let the assembler pick its default".
pub open spec fn format_for(arch: Arch, os: Seq<char>) -> Seq<char> {
    match arch {
        Arch::X86_64 => format_for_x86_64(os),
        Arch::X86 => format_for_x86(os),
        Arch::Unrecognized => ""@,
    }
}

/// The components of a triple, after discarding any path prefix.
pub open spec fn triple_components(t: Seq<char>) -> Seq<Seq<char>> {
    components(strip_path(t))
}

/// The architecture a triple names.
pub open spec fn triple_arch(t: Seq<char>) -> Arch {
    arch_of(triple_components(t)[0])
}

/// The operating system a triple names.
pub open spec fn triple_os(t: Seq<char>) -> Seq<char> {
    os_of(triple_components(t))
}

/// What resolving a triple returns: the flag for its architecture and
/// operating system.
pub open spec fn resolve_spec(t: Seq<char>) -> Seq<char> {
    format_for(triple_arch(t), triple_os(t))
}

/// When no `/` occurs at or after `start`, and `start` is either the very
/// beginning or just past a `/`, the stripped identifier is exactly the
/// suffix from `start`.
pub proof fn lemma_strip_path_suffix(s: Seq<char>, start: int)
    requires
        0 <= start <= s.len(),
        start == 0 || s[start - 1] == '/',
        forall|j: int| start <= j < s.len() ==> s[j] != '/',
    ensures
        strip_path(s) == s.subrange(start, s.len() as int),
    decreases s.len(),
{
    if s.len() == 0 {
        assert(s.subrange(0, 0) =~= s);
    } else if s.last() == '/' {
        assert(start == s.len());
        assert(s.subrange(start, s.len() as int) =~= Seq::<char>::empty());
    } else {
        assert(start < s.len());
        let t = s.drop_last();
        lemma_strip_path_suffix(t, start);
        assert(t.subrange(start, t.len() as int).push(s.last()) =~= s.subrange(
            start,
            s.len() as int,
        ));
    }
}

/// Character-for-character equality of two string slices.
pub fn str_eq(a: &str, b: &str) -> (r: bool)
    ensures
        r == (a@ == b@),
{
    let an = a.unicode_len();
    let bn = b.unicode_len();
    if an != bn {
        return false;
    }
    let mut i: usize = 0;
    while i < an
        invariant
            i <= an,
            an == a@.len(),
            an == b@.len(),
            forall|j: int| 0 <= j < i ==> a@[j] == b@[j],
        decreases an - i,
    {
        if a.get_char(i) != b.get_char(i) {
            return false;
        }
        i = i + 1;
    }
    proof {
        assert(a@ =~= b@);
    }
    true
}

/// Resolve a raw target identifier to the assembler output-format flag.
///
/// Any path prefix is discarded, the remainder is split on `-`, the
/// architecture is read from the first component and the operating system
/// from the third (defaulted to `none` when absent); unrecognized values
/// resolve to the empty flag rather than failing.
pub fn parse_triple(trip: &str) -> (r: &'static str)
    ensures
        r@ == resolve_spec(trip@),
{
    let n = trip.unicode_len();

    // Index one past the last path separator, or 0 when none occurs.
    let mut start: usize = 0;
    let mut i: usize = 0;
    while i < n
        invariant
            n == trip@.len(),
            start <= i <= n,
            start == 0 || trip@[start - 1] == '/',
            forall|j: int| start <= j < i ==> trip@[j] != '/',
        decreases n - i,
    {
        if trip.get_char(i) == '/' {
            start = i + 1;
        }
        i = i + 1;
    }
    proof {
        lemma_strip_path_suffix(trip@, start as int);
    }

    // Split the stripped identifier on `-`.
    let ghost stripped: Seq<char> = trip@.subrange(start as int, n as int);
    let mut parts: Vec<&str> = Vec::new();
    let mut seg_start: usize = start;
    let mut k: usize = start;
    proof {
        assert(trip@.subrange(start as int, start as int) =~= Seq::<char>::empty());
        assert(parts@.map_values(|p: &str| p@).push(
            trip@.subrange(seg_start as int, start as int),
        ) =~= components(trip@.subrange(start as int, start as int)));
    }
    while k < n
        invariant
            n == trip@.len(),
            start <= seg_start <= k <= n,
            parts@.map_values(|p: &str| p@).push(trip@.subrange(seg_start as int, k as int))
                == components(trip@.subrange(start as int, k as int)),
        decreases n - k,
    {
        let ghost prefix: Seq<char> = trip@.subrange(start as int, k as int);
        proof {
            assert(trip@.subrange(start as int, k + 1).drop_last() =~= prefix);
            assert(trip@.subrange(start as int, k + 1).last() == trip@[k as int]);
        }
        let c = trip.get_char(k);
        if c == '-' {
            let seg = trip.substring_char(seg_start, k);
            parts.push(seg);
            proof {
                assert(trip@.subrange(k + 1, k + 1) =~= Seq::<char>::empty());
                assert(parts@.map_values(|p: &str| p@).push(trip@.subrange(k + 1, k + 1))
                    =~= components(trip@.subrange(start as int, k + 1)));
            }
            seg_start = k + 1;
        } else {
            proof {
                let r = components(prefix);
                lemma_components_nonempty(prefix);
                assert(trip@.subrange(seg_start as int, k as int).push(trip@[k as int])
                    =~= trip@.subrange(seg_start as int, k + 1));
                assert(parts@.map_values(|p: &str| p@).push(trip@.subrange(seg_start as int, k + 1))
                    =~= components(trip@.subrange(start as int, k + 1)));
            }
        }
        k = k + 1;
    }
    let last_seg = trip.substring_char(seg_start, n);
    parts.push(last_seg);
    proof {
        assert(parts@.map_values(|p: &str| p@) =~= components(stripped));
        lemma_components_nonempty(stripped);
    }

    // Dispatch on architecture and operating system.
    let os: &str = if parts.len() < 3 {
        "none"
    } else {
        parts[2]
    };
    proof {
        assert(os@ == triple_os(trip@));
    }
    let arch_comp: &str = parts[0];
    if str_eq(arch_comp, "x86_64") {
        format_x86_64(os)
    } else if str_eq(arch_comp, "x86") {
        format_x86(os)
    } else {
        ""
    }
}

/// Flag for a 64-bit x86 target, given its operating-system component.
pub fn format_x86_64(os: &str) -> (r: &'static str)
    ensures
        r@ == format_for_x86_64(os@),
{
    if str_eq(os, "linux") {
        "-felf64"
    } else if str_eq(os, "darwin") {
        "-felf64"
    } else if str_eq(os, "windows") {
        "-fwin64"
    } else if str_eq(os, "none") {
        "-felf64"
    } else {
        ""
    }
}

/// Flag for a 32-bit x86 target, given its operating-system component.
pub fn format_x86(os: &str) -> (r: &'static str)
    ensures
        r@ == format_for_x86(os@),
{
    if str_eq(os, "linux") {
        "-felf32"
    } else if str_eq(os, "darwin") {
        "-fmachos32"
    } else if str_eq(os, "windows") {
        "-fwin32"
    } else if str_eq(os, "none") {
        "-felf32"
    } else {
        ""
    }
}

/// The four operating-system names of the table are pairwise distinct.
proof fn lemma_os_names_distinct()
    ensures
        "linux"@ != "darwin"@,
        "linux"@ != "windows"@,
        "linux"@ != "none"@,
        "darwin"@ != "windows"@,
        "darwin"@ != "none"@,
        "windows"@ != "none"@,
{
    reveal_strlit("linux");
    reveal_strlit("darwin");
    reveal_strlit("windows");
    reveal_strlit("none");
    assert("linux"@.len() == 5);
    assert("darwin"@.len() == 6);
    assert("windows"@.len() == 7);
    assert("none"@.len() == 4);
}

/// Every triple whose architecture is `x86_64` and whose operating system is
/// `linux`, `darwin`, or `none` resolves to the 64-bit ELF flag.
pub proof fn lemma_x86_64_elf(t: Seq<char>)
    requires
        triple_arch(t) == Arch::X86_64,
        triple_os(t) == "linux"@ || triple_os(t) == "darwin"@ || triple_os(t) == "none"@,
    ensures
        resolve_spec(t) == "-felf64"@,
{
    lemma_os_names_distinct();
    assert(resolve_spec(t) == format_for(Arch::X86_64, triple_os(t)));
    if triple_os(t) == "linux"@ {
        assert(format_for_x86_64("linux"@) == "-felf64"@);
    } else if triple_os(t) == "darwin"@ {
        assert(format_for_x86_64("darwin"@) == "-felf64"@);
    } else {
        assert(format_for_x86_64("none"@) == "-felf64"@);
    }
}

/// Every triple whose architecture is `x86_64` and whose operating system is
/// `windows` resolves to the 64-bit Windows-object flag.
pub proof fn lemma_x86_64_windows(t: Seq<char>)
    requires
        triple_arch(t) == Arch::X86_64,
        triple_os(t) == "windows"@,
    ensures
        resolve_spec(t) == "-fwin64"@,
{
    lemma_os_names_distinct();
    assert(resolve_spec(t) == format_for(Arch::X86_64, triple_os(t)));
    assert(format_for_x86_64("windows"@) == "-fwin64"@);
}

/// Every triple whose architecture is `x86` and whose operating system is
/// `darwin` resolves to the 32-bit Mach-O flag.
pub proof fn lemma_x86_darwin_macho(t: Seq<char>)
    requires
        triple_arch(t) == Arch::X86,
        triple_os(t) == "darwin"@,
    ensures
        resolve_spec(t) == "-fmachos32"@,
{
    lemma_os_names_distinct();
    assert(resolve_spec(t) == format_for(Arch::X86, triple_os(t)));
    assert(format_for_x86("darwin"@) == "-fmachos32"@);
}

/// Every triple whose architecture is `x86` and whose operating system is
/// `linux` or `none` resolves to the 32-bit ELF flag.
pub proof fn lemma_x86_elf(t: Seq<char>)
    requires
        triple_arch(t) == Arch::X86,
        triple_os(t) == "linux"@ || triple_os(t) == "none"@,
    ensures
        resolve_spec(t) == "-felf32"@,
{
    lemma_os_names_distinct();
    assert(resolve_spec(t) == format_for(Arch::X86, triple_os(t)));
    if triple_os(t) == "linux"@ {
        assert(format_for_x86("linux"@) == "-felf32"@);
    } else {
        assert(format_for_x86("none"@) == "-felf32"@);
    }
}

/// Every triple whose architecture is `x86` and whose operating system is
/// `windows` resolves to the 32-bit Windows-object flag.
pub proof fn lemma_x86_windows(t: Seq<char>)
    requires
        triple_arch(t) == Arch::X86,
        triple_os(t) == "windows"@,
    ensures
        resolve_spec(t) == "-fwin32"@,
{
    lemma_os_names_distinct();
    assert(resolve_spec(t) == format_for(Arch::X86, triple_os(t)));
    assert(format_for_x86("windows"@) == "-fwin32"@);
}

/// An unrecognized architecture or an unrecognized operating system resolves
/// to the empty flag; resolution never fails.
pub proof fn lemma_unrecognized_resolves_empty(t: Seq<char>)
    requires
        triple_arch(t) == Arch::Unrecognized || (triple_os(t) != "linux"@ && triple_os(t)
            != "darwin"@ && triple_os(t) != "windows"@ && triple_os(t) != "none"@),
    ensures
        resolve_spec(t) == ""@,
{
}

/// An identifier with fewer than three dash-separated components gets the
/// default operating system `none`, so the `none` mapping applies.
pub proof fn lemma_short_triple_os_none(t: Seq<char>)
    requires
        triple_components(t).len() < 3,
    ensures
        triple_os(t) == "none"@,
{
}

/// Only the segment after the last path separator matters: resolving a
/// path-prefixed identifier equals resolving the bare identifier.
pub proof fn lemma_path_prefix_ignored(p: Seq<char>, t: Seq<char>)
    requires
        forall|j: int| 0 <= j < t.len() ==> t[j] != '/',
    ensures
        resolve_spec(p + seq!['/'] + t) == resolve_spec(t),
{
    let s = p + seq!['/'] + t;
    lemma_strip_path_suffix(s, p.len() as int + 1);
    assert(s.subrange(p.len() as int + 1, s.len() as int) =~= t);
    lemma_strip_path_suffix(t, 0);
    assert(t.subrange(0, t.len() as int) =~= t);
}

} // verus!
