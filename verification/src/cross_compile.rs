//! Cross-compilation targets: the table of known targets, the choice of
//! the native one from the host's LLVM triple, the LLVM target machine for
//! a target, and the linker command lines for each kind of target.
use vstd::prelude::*;
use crate::cache::{split_lines, text_lines};
use crate::text::{str_eq, string_of, concat2, trim, trimmed, has_infix, contains_text, lowercase_of, to_lowercase, chars_of};
use inkwell::targets::{Target, TargetMachine, TargetTriple, InitializationConfig, RelocMode, CodeModel};
use inkwell::OptimizationLevel;

verus! {

#[verifier::external_type_specification]
#[verifier::external_body]
pub struct ExTargetTriple(TargetTriple);

#[verifier::external_type_specification]
#[verifier::external_body]
pub struct ExTarget(Target);

#[verifier::external_type_specification]
#[verifier::external_body]
pub struct ExTargetMachine(TargetMachine);

#[verifier::external_type_specification]
#[verifier::external_body]
pub struct ExOptimizationLevel(OptimizationLevel);

/// The triple, CPU and features handed to LLVM for a target machine.
pub struct MachineRequest {
    pub triple: String,
    pub cpu: String,
    pub features: String,
}

/// A compilation target: its LLVM triple, CPU and features, and how its
/// objects are linked.
pub struct CrossTarget {
    pub name: String,
    pub triple: String,
    pub cpu: String,
    pub features: String,
    pub linker: String,
    pub obj_ext: String,
    pub exe_ext: String,
    pub link_args: Vec<String>,
}

/// The texts of a list of strings.
pub open spec fn texts(v: Seq<String>) -> Seq<Seq<char>> {
    v.map_values(|s: String| s@)
}

/// `t` has exactly these fields.
pub open spec fn target_is(
    t: CrossTarget,
    name: Seq<char>,
    triple: Seq<char>,
    cpu: Seq<char>,
    features: Seq<char>,
    linker: Seq<char>,
    obj_ext: Seq<char>,
    exe_ext: Seq<char>,
    link_args: Seq<Seq<char>>,
) -> bool {
    &&& t.name@ == name
    &&& t.triple@ == triple
    &&& t.cpu@ == cpu
    &&& t.features@ == features
    &&& t.linker@ == linker
    &&& t.obj_ext@ == obj_ext
    &&& t.exe_ext@ == exe_ext
    &&& texts(t.link_args@) == link_args
}

pub open spec fn is_windows_x64(t: CrossTarget) -> bool {
    target_is(t, "windows-x64"@, "x86_64-pc-windows-msvc"@, "generic"@, ""@, "link.exe"@, "obj"@, "exe"@,
        seq!["/nologo"@, "/subsystem:console"@, "/opt:ref"@, "/opt:icf"@, "libcmt.lib"@, "libucrt.lib"@, "kernel32.lib"@])
}

pub open spec fn is_linux_x64(t: CrossTarget) -> bool {
    target_is(t, "linux-x64"@, "x86_64-unknown-linux-gnu"@, "generic"@, "+sse4.2,+avx2"@, "cc"@, "o"@, ""@,
        seq!["-lm"@, "-lpthread"@, "-ldl"@])
}

pub open spec fn is_linux_arm64(t: CrossTarget) -> bool {
    target_is(t, "linux-arm64"@, "aarch64-unknown-linux-gnu"@, "generic"@, "+neon"@, "aarch64-linux-gnu-gcc"@, "o"@, ""@,
        seq!["-lm"@, "-lpthread"@])
}

pub open spec fn is_macos_x64(t: CrossTarget) -> bool {
    target_is(t, "macos-x64"@, "x86_64-apple-macosx10.15.0"@, "generic"@, "+sse4.2"@, "cc"@, "o"@, ""@,
        seq!["-lm"@, "-lpthread"@])
}

pub open spec fn is_macos_arm64(t: CrossTarget) -> bool {
    target_is(t, "macos-arm64"@, "aarch64-apple-macosx11.0.0"@, "apple-m1"@, "+neon"@, "cc"@, "o"@, ""@,
        seq!["-lm"@, "-lpthread"@])
}

pub open spec fn is_wasm32(t: CrossTarget) -> bool {
    target_is(t, "wasm32"@, "wasm32-unknown-unknown"@, "generic"@, ""@, "wasm-ld"@, "o"@, "wasm"@,
        seq!["--no-entry"@, "--export-all"@, "--allow-undefined"@])
}

/// The position in the target table of a target name or alias; -1 for a
/// name that is not in the table.
pub open spec fn target_index(name: Seq<char>) -> int {
    if name == "windows-x64"@ || name == "windows"@ {
        0
    } else if name == "linux-x64"@ || name == "linux"@ {
        1
    } else if name == "linux-arm64"@ {
        2
    } else if name == "macos-x64"@ {
        3
    } else if name == "macos-arm64"@ || name == "macos"@ {
        4
    } else if name == "wasm32"@ || name == "wasm"@ {
        5
    } else {
        -1
    }
}

/// `t` is the target at position `k` of the table.
pub open spec fn target_matches(t: CrossTarget, k: int) -> bool {
    if k == 0 {
        is_windows_x64(t)
    } else if k == 1 {
        is_linux_x64(t)
    } else if k == 2 {
        is_linux_arm64(t)
    } else if k == 3 {
        is_macos_x64(t)
    } else if k == 4 {
        is_macos_arm64(t)
    } else {
        k == 5 && is_wasm32(t)
    }
}

/// Strings with the given texts, in order.
fn strings(parts: Vec<&str>) -> (r: Vec<String>)
    ensures
        r@.len() == parts@.len(),
        forall|i: int| 0 <= i < r@.len() ==> #[trigger] r@[i]@ == parts@[i]@,
{
    let mut r: Vec<String> = Vec::new();
    let mut i: usize = 0;
    while i < parts.len()
        invariant
            i <= parts@.len(),
            r@.len() == i,
            forall|j: int| 0 <= j < i ==> #[trigger] r@[j]@ == parts@[j]@,
        decreases parts.len() - i,
    {
        r.push(string_of(parts[i]));
        i = i + 1;
    }
    r
}

fn make_target(
    name: &str,
    triple: &str,
    cpu: &str,
    features: &str,
    linker: &str,
    obj_ext: &str,
    exe_ext: &str,
    link_args: Vec<&str>,
) -> (t: CrossTarget)
    ensures
        target_is(t, name@, triple@, cpu@, features@, linker@, obj_ext@, exe_ext@,
            link_args@.map_values(|s: &str| s@)),
{
    let args = strings(link_args);
    let t = CrossTarget {
        name: string_of(name),
        triple: string_of(triple),
        cpu: string_of(cpu),
        features: string_of(features),
        linker: string_of(linker),
        obj_ext: string_of(obj_ext),
        exe_ext: string_of(exe_ext),
        link_args: args,
    };
    assert(texts(t.link_args@) =~= link_args@.map_values(|s: &str| s@));
    t
}

impl CrossTarget {
    /// The target of a name, or of its short alias (`windows`, `linux`,
    /// `macos`, `wasm`); `None` for an unknown name.
    pub fn from_name(name: &str) -> (r: Option<CrossTarget>)
        ensures
            match r {
                Some(t) => 0 <= target_index(name@) && target_matches(t, target_index(name@)),
                None => target_index(name@) < 0,
            },
    {
        if str_eq(name, "windows-x64") || str_eq(name, "windows") {
            Some(windows_x64())
        } else if str_eq(name, "linux-x64") || str_eq(name, "linux") {
            Some(linux_x64())
        } else if str_eq(name, "linux-arm64") {
            Some(linux_arm64())
        } else if str_eq(name, "macos-x64") {
            Some(macos_x64())
        } else if str_eq(name, "macos-arm64") || str_eq(name, "macos") {
            Some(macos_arm64())
        } else if str_eq(name, "wasm32") || str_eq(name, "wasm") {
            Some(wasm32())
        } else {
            None
        }
    }
}

fn windows_x64() -> (t: CrossTarget)
    ensures
        is_windows_x64(t),
{
    let args = vec!["/nologo", "/subsystem:console", "/opt:ref", "/opt:icf", "libcmt.lib", "libucrt.lib", "kernel32.lib"];
    let t = make_target("windows-x64", "x86_64-pc-windows-msvc", "generic", "", "link.exe", "obj", "exe", args);
    assert(texts(t.link_args@) =~= seq!["/nologo"@, "/subsystem:console"@, "/opt:ref"@, "/opt:icf"@, "libcmt.lib"@, "libucrt.lib"@, "kernel32.lib"@]);
    t
}

fn linux_x64() -> (t: CrossTarget)
    ensures
        is_linux_x64(t),
{
    let args = vec!["-lm", "-lpthread", "-ldl"];
    let t = make_target("linux-x64", "x86_64-unknown-linux-gnu", "generic", "+sse4.2,+avx2", "cc", "o", "", args);
    assert(texts(t.link_args@) =~= seq!["-lm"@, "-lpthread"@, "-ldl"@]);
    t
}

fn linux_arm64() -> (t: CrossTarget)
    ensures
        is_linux_arm64(t),
{
    let args = vec!["-lm", "-lpthread"];
    let t = make_target("linux-arm64", "aarch64-unknown-linux-gnu", "generic", "+neon", "aarch64-linux-gnu-gcc", "o", "", args);
    assert(texts(t.link_args@) =~= seq!["-lm"@, "-lpthread"@]);
    t
}

fn macos_x64() -> (t: CrossTarget)
    ensures
        is_macos_x64(t),
{
    let args = vec!["-lm", "-lpthread"];
    let t = make_target("macos-x64", "x86_64-apple-macosx10.15.0", "generic", "+sse4.2", "cc", "o", "", args);
    assert(texts(t.link_args@) =~= seq!["-lm"@, "-lpthread"@]);
    t
}

fn macos_arm64() -> (t: CrossTarget)
    ensures
        is_macos_arm64(t),
{
    let args = vec!["-lm", "-lpthread"];
    let t = make_target("macos-arm64", "aarch64-apple-macosx11.0.0", "apple-m1", "+neon", "cc", "o", "", args);
    assert(texts(t.link_args@) =~= seq!["-lm"@, "-lpthread"@]);
    t
}

fn wasm32() -> (t: CrossTarget)
    ensures
        is_wasm32(t),
{
    let args = vec!["--no-entry", "--export-all", "--allow-undefined"];
    let t = make_target("wasm32", "wasm32-unknown-unknown", "generic", "", "wasm-ld", "o", "wasm", args);
    assert(texts(t.link_args@) =~= seq!["--no-entry"@, "--export-all"@, "--allow-undefined"@]);
    t
}

// ── The native target ───────────────────────────────────────────────────

/// The table position of the native target for a lowercase LLVM triple:
/// Windows, macOS on ARM or Intel, Linux on AArch64, else Linux x86_64.
pub open spec fn native_index(triple: Seq<char>) -> int {
    if has_infix(triple, "windows"@) {
        0
    } else if has_infix(triple, "darwin"@) {
        if has_infix(triple, "arm"@) || has_infix(triple, "aarch64"@) {
            4
        } else {
            3
        }
    } else if has_infix(triple, "aarch64"@) {
        2
    } else {
        1
    }
}

/// The host's default LLVM target triple: `TargetMachine::get_default_triple`.
/// Trusted; it depends on the machine, and nothing is stated of it.
#[verifier::external_body]
fn default_triple() -> (r: TargetTriple) {
    TargetMachine::get_default_triple()
}

/// The text of a triple: `TargetTriple::as_str`, read as UTF-8 ("" when it
/// is not). Trusted; the triple is opaque here, so nothing is stated of
/// the text.
#[verifier::external_body]
pub(crate) fn triple_text(t: &TargetTriple) -> (r: String) {
    t.as_str().to_str().unwrap_or("").to_string()
}

/// An LLVM triple from its text: `TargetTriple::create`. Trusted, with
/// nothing stated: the value is opaque.
#[verifier::external_body]
fn create_triple(s: &str) -> (r: TargetTriple) {
    TargetTriple::create(s)
}

/// Registers every LLVM target: `Target::initialize_all` with the default
/// configuration. Trusted; it has no result.
#[verifier::external_body]
fn initialize_all_targets() {
    Target::initialize_all(&InitializationConfig::default())
}

/// The LLVM target of a triple: `Target::from_triple`, `None` on its error.
/// Trusted; whether LLVM knows the triple is not stated.
#[verifier::external_body]
fn target_from_triple(t: &TargetTriple) -> (r: Option<Target>) {
    Target::from_triple(t).ok()
}

/// `Target::create_target_machine` for the CPU and features of a request,
/// with the default relocation mode and code model. Trusted; LLVM may
/// refuse, and nothing is stated.
#[verifier::external_body]
fn new_target_machine(target: &Target, triple: &TargetTriple, req: &MachineRequest, opt: OptimizationLevel) -> (r: Option<TargetMachine>) {
    target.create_target_machine(triple, req.cpu.as_str(), req.features.as_str(), opt, RelocMode::Default, CodeModel::Default)
}

/// The native target for an LLVM triple that is already lowercase.
pub fn native_for_lowercase_triple(triple: &str) -> (t: CrossTarget)
    ensures
        target_matches(t, native_index(triple@)),
{
    if contains_text(triple, "windows") {
        windows_x64()
    } else if contains_text(triple, "darwin") {
        if contains_text(triple, "arm") || contains_text(triple, "aarch64") {
            macos_arm64()
        } else {
            macos_x64()
        }
    } else if contains_text(triple, "aarch64") {
        linux_arm64()
    } else {
        linux_x64()
    }
}

/// The native target for an LLVM triple, compared without regard to case.
pub fn native_for_triple(triple: &str) -> (t: CrossTarget)
    ensures
        target_matches(t, native_index(lowercase_of(triple@))),
{
    let lower = to_lowercase(triple);
    native_for_lowercase_triple(lower.as_str())
}

impl CrossTarget {
    /// The target for the machine this runs on, chosen from LLVM's default
    /// triple (see `native_for_triple`).
    pub fn native() -> (t: CrossTarget)
        ensures
            exists|s: Seq<char>| target_matches(t, #[trigger] native_index(lowercase_of(s))),
    {
        let triple = default_triple();
        let text = triple_text(&triple);
        native_for_triple(text.as_str())
    }

    /// An LLVM target machine for this target's triple, CPU and features at
    /// the given optimisation level; `None` when LLVM does not know the
    /// triple or refuses the machine.
    /// What is asked of LLVM for this target's machine: its triple, CPU and
    /// features.
    pub fn machine_request(&self) -> (r: MachineRequest)
        ensures
            r.triple@ == self.triple@,
            r.cpu@ == self.cpu@,
            r.features@ == self.features@,
    {
        MachineRequest { triple: self.triple.clone(), cpu: self.cpu.clone(), features: self.features.clone() }
    }

    /// An LLVM target machine for the request of `machine_request`; `None`
    /// where LLVM knows no such target or refuses the machine.
    pub fn create_target_machine(&self, opt: OptimizationLevel) -> (r: Option<TargetMachine>) {
        let req = self.machine_request();
        initialize_all_targets();
        let triple = create_triple(req.triple.as_str());
        let target = match target_from_triple(&triple) {
            Some(t) => t,
            None => {
                return None;
            },
        };
        new_target_machine(&target, &triple, &req, opt)
    }
}

// ── Linking ─────────────────────────────────────────────────────────────

/// A linker invocation: the program, its arguments, and whether it is the
/// MSVC linker (which also needs the `LIB` search path from the
/// environment, and whose program is looked up on the machine).
pub struct LinkCommand {
    pub msvc: bool,
    pub program: String,
    pub args: Vec<String>,
}

/// MSVC's command line: the target's flags, `/out:`, the object, the extra
/// objects.
pub open spec fn msvc_link_args(flags: Seq<Seq<char>>, obj: Seq<char>, out: Seq<char>, extra: Seq<Seq<char>>) -> Seq<Seq<char>> {
    flags + seq!["/out:"@ + out, obj] + extra
}

/// A Unix linker's command line: the object, the extra objects, `-o` and
/// the output, then the target's flags.
pub open spec fn unix_link_args(flags: Seq<Seq<char>>, obj: Seq<char>, out: Seq<char>, extra: Seq<Seq<char>>) -> Seq<Seq<char>> {
    seq![obj] + extra + seq!["-o"@, out] + flags
}

fn push_all(dst: &mut Vec<String>, src: &Vec<String>)
    ensures
        texts(final(dst)@) == texts(old(dst)@) + texts(src@),
{
    let ghost start = texts(dst@);
    let mut i: usize = 0;
    while i < src.len()
        invariant
            i <= src@.len(),
            texts(dst@) == start + texts(src@.subrange(0, i as int)),
        decreases src.len() - i,
    {
        let ghost before = dst@;
        dst.push(src[i].clone());
        proof {
            assert(texts(dst@) =~= texts(before) + seq![src@[i as int]@]);
            assert(texts(src@.subrange(0, i + 1)) =~= texts(src@.subrange(0, i as int)) + seq![src@[i as int]@]);
        }
        i = i + 1;
    }
    assert(src@.subrange(0, src@.len() as int) =~= src@);
}

fn push_text(dst: &mut Vec<String>, s: String)
    ensures
        texts(final(dst)@) == texts(old(dst)@) + seq![s@],
{
    let ghost before = dst@;
    let ghost v = s@;
    dst.push(s);
    assert(texts(dst@) =~= texts(before) + seq![v]);
}

impl CrossTarget {
    /// How to link an object for this target: with MSVC's `link.exe`, or
    /// with the target's Unix-style linker.
    pub fn link(&self, obj_path: &str, out_path: &str, extra_objs: &Vec<String>) -> (r: LinkCommand)
        ensures
            r.msvc == (self.linker@ == "link.exe"@),
            r.program@ == self.linker@,
            r.msvc ==> texts(r.args@) == msvc_link_args(texts(self.link_args@), obj_path@, out_path@, texts(extra_objs@)),
            !r.msvc ==> texts(r.args@) == unix_link_args(texts(self.link_args@), obj_path@, out_path@, texts(extra_objs@)),
    {
        let mut args: Vec<String> = Vec::new();
        if str_eq(self.linker.as_str(), "link.exe") {
            push_all(&mut args, &self.link_args);
            push_text(&mut args, concat2("/out:", out_path));
            push_text(&mut args, string_of(obj_path));
            push_all(&mut args, extra_objs);
            proof {
                assert(texts(args@) =~= msvc_link_args(texts(self.link_args@), obj_path@, out_path@, texts(extra_objs@)));
            }
            LinkCommand { msvc: true, program: self.linker.clone(), args }
        } else {
            push_text(&mut args, string_of(obj_path));
            push_all(&mut args, extra_objs);
            push_text(&mut args, string_of("-o"));
            push_text(&mut args, string_of(out_path));
            push_all(&mut args, &self.link_args);
            proof {
                assert(texts(args@) =~= unix_link_args(texts(self.link_args@), obj_path@, out_path@, texts(extra_objs@)));
            }
            LinkCommand { msvc: false, program: self.linker.clone(), args }
        }
    }
}

// ── Finding a WebAssembly linker ────────────────────────────────────────

/// The programs tried, in order, as a WebAssembly linker.
pub fn wasm_linker_candidates() -> (r: Vec<String>)
    ensures
        texts(r@) == seq!["wasm-ld"@, "wasm-ld-18"@, "wasm-ld-17"@, "lld"@],
{
    let r = strings(vec!["wasm-ld", "wasm-ld-18", "wasm-ld-17", "lld"]);
    assert(texts(r@) =~= seq!["wasm-ld"@, "wasm-ld-18"@, "wasm-ld-17"@, "lld"@]);
    r
}

/// The path a `which`/`where` lookup printed: its first line, trimmed, when
/// that is not empty.
pub fn first_output_line(output: &str) -> (r: Option<String>)
    ensures
        match r {
            Some(t) => text_lines(output@).len() > 0 && t@ == trimmed(text_lines(output@)[0]) && t@.len() > 0,
            None => text_lines(output@).len() == 0 || trimmed(text_lines(output@)[0]).len() == 0,
        },
{
    let lines = split_lines(output);
    if lines.len() == 0 {
        return None;
    }
    assert(lines@[0]@ == text_lines(output@)[0]);
    let t = trim(lines[0].as_str());
    if chars_of(t.as_str()).len() > 0 {
        Some(t)
    } else {
        None
    }
}


/// Looking up a target by the name of the target a name gives yields that
/// same target again; the Windows target links with `link.exe` and makes
/// `.obj` objects.
pub proof fn law_from_name_idempotent(name: Seq<char>, t: CrossTarget)
    requires
        target_index(name) >= 0,
        target_matches(t, target_index(name)),
    ensures
        target_index(t.name@) == target_index(name),
        target_index(name) == 0 ==> t.linker@ == "link.exe"@ && t.obj_ext@ == "obj"@,
{
    reveal_strlit("windows-x64");
    reveal_strlit("windows");
    reveal_strlit("linux-x64");
    reveal_strlit("linux");
    reveal_strlit("linux-arm64");
    reveal_strlit("macos-x64");
    reveal_strlit("macos-arm64");
    reveal_strlit("macos");
    reveal_strlit("wasm32");
    reveal_strlit("wasm");
    let k = target_index(name);
    let n = t.name@;
    if k == 0 {
        assert(n == "windows-x64"@);
    } else if k == 1 {
        assert(n == "linux-x64"@);
        assert(n[0] != "windows-x64"@[0]);
        assert(n.len() != "windows"@.len());
    } else if k == 2 {
        assert(n == "linux-arm64"@);
        assert(n[0] != "windows-x64"@[0]);
        assert(n.len() != "windows"@.len());
        assert(n.len() != "linux-x64"@.len());
        assert(n.len() != "linux"@.len());
    } else if k == 3 {
        assert(n == "macos-x64"@);
        assert(n.len() != "windows-x64"@.len());
        assert(n.len() != "windows"@.len());
        assert(n[0] != "linux-x64"@[0]);
        assert(n.len() != "linux"@.len());
        assert(n.len() != "linux-arm64"@.len());
    } else if k == 4 {
        assert(n == "macos-arm64"@);
        assert(n[0] != "windows-x64"@[0]);
        assert(n.len() != "windows"@.len());
        assert(n.len() != "linux-x64"@.len());
        assert(n.len() != "linux"@.len());
        assert(n[0] != "linux-arm64"@[0]);
        assert(n.len() != "macos-x64"@.len());
    } else {
        assert(n == "wasm32"@);
        assert(n.len() != "windows-x64"@.len());
        assert(n[1] != "windows"@[1]);
        assert(n.len() != "linux-x64"@.len());
        assert(n[0] != "linux"@[0]);
        assert(n.len() != "linux-arm64"@.len());
        assert(n.len() != "macos-x64"@.len());
        assert(n.len() != "macos-arm64"@.len());
        assert(n[0] != "macos"@[0]);
    }
}

} // verus!
