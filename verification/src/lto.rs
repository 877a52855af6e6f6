//! Link-time optimisation: its configuration, where the bitcode of a
//! module goes, and the command line of the optimising link for each kind
//! of target.
use vstd::prelude::*;
use crate::text::{string_of, concat2, contains_text, has_infix, lowercase_of, to_lowercase, chars_of};
use crate::cross_compile::{texts, triple_text};
use inkwell::targets::TargetTriple;

verus! {

/// Whether and how link-time optimisation is done.
pub struct LtoConfig {
    pub enabled: bool,
    /// ThinLTO: faster to build, nearly as fast to run as full LTO.
    pub thin: bool,
    pub cache_dir: String,
}

impl Default for LtoConfig {
    /// LTO on, in its thin form, cached in `.sov_lto_cache`.
    fn default() -> (r: LtoConfig)
        ensures
            r.enabled,
            r.thin,
            r.cache_dir@ == ".sov_lto_cache"@,
    {
        LtoConfig { enabled: true, thin: true, cache_dir: string_of(".sov_lto_cache") }
    }
}

/// `s` without every trailing `.obj` (as `str::trim_end_matches` removes
/// them, repeatedly).
pub open spec fn without_obj_suffixes(s: Seq<char>) -> Seq<char>
    decreases s.len(),
{
    if s.len() >= 4 && s.subrange(s.len() - 4, s.len() as int) == ".obj"@ {
        without_obj_suffixes(s.subrange(0, s.len() - 4))
    } else {
        s
    }
}

/// The path of the bitcode file written for an output path: the output
/// without its `.obj` endings, then `.bc`.
pub fn bitcode_path(output_path: &str) -> (r: String)
    ensures
        r@ == without_obj_suffixes(output_path@) + ".bc"@,
{
    proof {
        reveal_strlit(".obj");
    }
    let cs = chars_of(output_path);
    let mut end: usize = cs.len();
    assert(cs@.subrange(0, end as int) =~= cs@);
    while end >= 4 && cs[end - 4] == '.' && cs[end - 3] == 'o' && cs[end - 2] == 'b' && cs[end - 1] == 'j'
        invariant
            cs@ == output_path@,
            end <= cs@.len(),
            without_obj_suffixes(cs@.subrange(0, end as int)) == without_obj_suffixes(output_path@),
        decreases end,
    {
        proof {
            reveal_strlit(".obj");
            let s = cs@.subrange(0, end as int);
            assert(s.subrange(s.len() - 4, s.len() as int) =~= ".obj"@);
            assert(s.subrange(0, s.len() - 4) =~= cs@.subrange(0, end - 4));
        }
        end = end - 4;
    }
    proof {
        let s = cs@.subrange(0, end as int);
        if s.len() >= 4 {
            assert(s.subrange(s.len() - 4, s.len() as int) != ".obj"@) by {
                if s.subrange(s.len() - 4, s.len() as int) == ".obj"@ {
                    assert(s.subrange(s.len() - 4, s.len() as int)[0] == cs@[end - 4]);
                    assert(s.subrange(s.len() - 4, s.len() as int)[1] == cs@[end - 3]);
                    assert(s.subrange(s.len() - 4, s.len() as int)[2] == cs@[end - 2]);
                    assert(s.subrange(s.len() - 4, s.len() as int)[3] == cs@[end - 1]);
                }
            }
        }
        assert(cs@.subrange(0, cs@.len() as int) =~= cs@);
    }
    let mut out = String::new();
    let mut k: usize = 0;
    while k < end
        invariant
            cs@ == output_path@,
            end <= cs@.len(),
            k <= end,
            out@ == cs@.subrange(0, k as int),
        decreases end - k,
    {
        crate::text::push_char(&mut out, cs[k]);
        assert(cs@.subrange(0, k + 1) =~= cs@.subrange(0, k as int).push(cs@[k as int]));
        k = k + 1;
    }
    out.append(".bc");
    out
}

/// An optimising link: its arguments, and whether it is MSVC's link-time
/// code generation (run by the `link.exe` found on the machine, with the
/// `LIB` search path) or clang's LTO.
pub struct LtoLinkPlan {
    pub windows: bool,
    pub args: Vec<String>,
}

/// clang's arguments for an LTO link.
pub open spec fn unix_lto_args(objs: Seq<Seq<char>>, out: Seq<char>, optimize_size: bool, thin: bool) -> Seq<Seq<char>> {
    seq![
        if thin { "-flto=thin"@ } else { "-flto"@ },
        if optimize_size { "-Oz"@ } else { "-O3"@ },
        "-o"@,
        out,
        "-Wl,--strip-all"@,
        "-Wl,--gc-sections"@,
        "-lm"@,
    ] + objs
}

/// MSVC's arguments for a link with whole-program code generation.
pub open spec fn windows_lto_args(objs: Seq<Seq<char>>, out: Seq<char>) -> Seq<Seq<char>> {
    seq![
        "/nologo"@,
        "/out:"@ + out,
        "/subsystem:console"@,
        "/opt:ref"@,
        "/opt:icf"@,
        "/Gy"@,
        "/LTCG"@,
        "/merge:.rdata=.text"@,
        "/nodefaultlib"@,
        "/entry:main"@,
        "kernel32.lib"@,
        "ucrt.lib"@,
    ] + objs
}

fn push_str(dst: &mut Vec<String>, s: &str)
    ensures
        texts(final(dst)@) == texts(old(dst)@).push(s@),
{
    let ghost before = dst@;
    dst.push(string_of(s));
    assert(texts(dst@) =~= texts(before).push(s@));
}

fn append_all(dst: &mut Vec<String>, src: &Vec<String>)
    ensures
        texts(final(dst)@) == texts(old(dst)@) + texts(src@),
{
    let ghost start = texts(dst@);
    let mut i: usize = 0;
    while i < src.len()
        invariant
            i <= src@.len(),
            texts(dst@) == start + texts(src@.subrange(0, i as int)),
        decreases src.len() - i,
    {
        let ghost before = dst@;
        dst.push(src[i].clone());
        proof {
            assert(texts(dst@) =~= texts(before) + seq![src@[i as int]@]);
            assert(texts(src@.subrange(0, i + 1)) =~= texts(src@.subrange(0, i as int)) + seq![src@[i as int]@]);
        }
        i = i + 1;
    }
    assert(src@.subrange(0, src@.len() as int) =~= src@);
}

/// The optimising link for a target whose lowercase triple is given: MSVC
/// for a Windows triple, clang otherwise.
pub fn lto_plan_for_triple(triple: &str, obj_paths: &Vec<String>, output_path: &str, optimize_size: bool, thin: bool) -> (r: LtoLinkPlan)
    ensures
        r.windows == has_infix(triple@, "windows"@),
        r.windows ==> texts(r.args@) == windows_lto_args(texts(obj_paths@), output_path@),
        !r.windows ==> texts(r.args@) == unix_lto_args(texts(obj_paths@), output_path@, optimize_size, thin),
{
    let mut args: Vec<String> = Vec::new();
    if contains_text(triple, "windows") {
        push_str(&mut args, "/nologo");
        let out = concat2("/out:", output_path);
        push_str(&mut args, out.as_str());
        push_str(&mut args, "/subsystem:console");
        push_str(&mut args, "/opt:ref");
        push_str(&mut args, "/opt:icf");
        push_str(&mut args, "/Gy");
        push_str(&mut args, "/LTCG");
        push_str(&mut args, "/merge:.rdata=.text");
        push_str(&mut args, "/nodefaultlib");
        push_str(&mut args, "/entry:main");
        push_str(&mut args, "kernel32.lib");
        push_str(&mut args, "ucrt.lib");
        append_all(&mut args, obj_paths);
        proof {
            assert(texts(args@) =~= windows_lto_args(texts(obj_paths@), output_path@));
        }
        LtoLinkPlan { windows: true, args }
    } else {
        push_str(&mut args, if thin { "-flto=thin" } else { "-flto" });
        push_str(&mut args, if optimize_size { "-Oz" } else { "-O3" });
        push_str(&mut args, "-o");
        push_str(&mut args, output_path);
        push_str(&mut args, "-Wl,--strip-all");
        push_str(&mut args, "-Wl,--gc-sections");
        push_str(&mut args, "-lm");
        append_all(&mut args, obj_paths);
        proof {
            assert(texts(args@) =~= unix_lto_args(texts(obj_paths@), output_path@, optimize_size, thin));
        }
        LtoLinkPlan { windows: false, args }
    }
}

/// The optimising link for an LLVM triple (compared without regard to
/// case; see `lto_plan_for_triple`).
pub fn lto_plan_for_triple_text(triple: &str, obj_paths: &Vec<String>, output_path: &str, optimize_size: bool, thin: bool) -> (r: LtoLinkPlan)
    ensures
        r.windows == has_infix(lowercase_of(triple@), "windows"@),
        r.windows ==> texts(r.args@) == windows_lto_args(texts(obj_paths@), output_path@),
        !r.windows ==> texts(r.args@) == unix_lto_args(texts(obj_paths@), output_path@, optimize_size, thin),
{
    let lower = to_lowercase(triple);
    lto_plan_for_triple(lower.as_str(), obj_paths, output_path, optimize_size, thin)
}

/// The optimising link for an LLVM target triple.
pub fn lto_link_plan(obj_paths: &Vec<String>, output_path: &str, target_triple: &TargetTriple, optimize_size: bool, thin: bool) -> (r: LtoLinkPlan)
    ensures
        exists|t: Seq<char>| r.windows == has_infix(lowercase_of(t), "windows"@),
        r.windows ==> texts(r.args@) == windows_lto_args(texts(obj_paths@), output_path@),
        !r.windows ==> texts(r.args@) == unix_lto_args(texts(obj_paths@), output_path@, optimize_size, thin),
{
    let text = triple_text(target_triple);
    lto_plan_for_triple_text(text.as_str(), obj_paths, output_path, optimize_size, thin)
}

} // verus!
