//! Setting Proton up for the layer: which library is copied, where copies go,
//! where the layer's manifest is written, and what is reported when a step
//! cannot be taken.
//!
//! The copying and writing themselves happen elsewhere; the functions here
//! decide what is copied where.
use vstd::prelude::*;
use crate::paths::{cache_dir, join2_str, join_str, path_join, path_join2};
use crate::text::{opt_chars, chars_of, lemma_chars_deep_view, concat, concat3, join, join_exec, string_of, strings_view, text};

verus! {

/// The message when none of the layer's libraries exists.
pub open spec fn missing_library_text(candidates: Seq<Seq<char>>) -> Seq<char> {
    "liblsfg-vk.so not found. Searched: "@ + join(candidates, ", "@)
}

/// The first candidate whose flag in `exists` is set.
pub open spec fn first_existing(candidates: Seq<Seq<char>>, exists: Seq<bool>) -> Option<Seq<char>>
    decreases candidates.len(),
{
    if candidates.len() == 0 || exists.len() == 0 {
        None
    } else if exists[0] {
        Some(candidates[0])
    } else {
        first_existing(candidates.drop_first(), exists.drop_first())
    }
}

/// The message that none of `candidates` was found.
pub fn missing_library_message(candidates: &Vec<String>) -> (r: String)
    ensures
        r@ == missing_library_text(strings_view(candidates@)),
{
    let mut parts: Vec<Vec<char>> = Vec::new();
    let n = candidates.len();
    let mut i: usize = 0;
    while i < n
        invariant
            n == candidates@.len(),
            i <= n,
            parts.deep_view() == strings_view(candidates@).take(i as int),
        decreases n - i,
    {
        let ghost before = parts.deep_view();
        let c = chars_of(candidates[i].as_str());
        assert(c@ == candidates@[i as int]@);
        proof {
            lemma_chars_deep_view(c);
        }
        parts.push(c);
        assert(parts.deep_view() =~= before.push(c@));
        assert(strings_view(candidates@).take(i + 1) =~= strings_view(candidates@).take(i as int).push(
            candidates@[i as int]@,
        ));
        i = i + 1;
    }
    assert(strings_view(candidates@).take(n as int) =~= strings_view(candidates@));
    let joined = join_exec(&parts, &text(", "));
    string_of(&concat(&text("liblsfg-vk.so not found. Searched: "), &joined))
}

/// The library that is copied into Proton: the first of `candidates` that
/// exists (`exists[i]` says whether `candidates[i]` does), or the message that
/// none was found.
pub fn library_source(candidates: &Vec<String>, exists: &Vec<bool>) -> (r: Result<String, String>)
    requires
        exists@.len() == candidates@.len(),
    ensures
        match r {
            Ok(p) => first_existing(strings_view(candidates@), exists@) == Some(p@),
            Err(m) => first_existing(strings_view(candidates@), exists@) is None
                && m@ == missing_library_text(strings_view(candidates@)),
        },
{
    let ghost cs = strings_view(candidates@);
    let n = candidates.len();
    let mut i: usize = 0;
    assert(cs.skip(0) =~= cs);
    assert(exists@.skip(0) =~= exists@);
    while i < n
        invariant
            n == candidates@.len(),
            n == exists@.len(),
            cs == strings_view(candidates@),
            i <= n,
            first_existing(cs.skip(i as int), exists@.skip(i as int)) == first_existing(cs, exists@),
        decreases n - i,
    {
        assert(cs.skip(i as int)[0] == candidates@[i as int]@);
        assert(exists@.skip(i as int)[0] == exists@[i as int]);
        if exists[i] {
            return Ok(candidates[i].clone());
        }
        assert(cs.skip(i as int).drop_first() =~= cs.skip(i + 1));
        assert(exists@.skip(i as int).drop_first() =~= exists@.skip(i + 1));
        i = i + 1;
    }
    assert(cs.skip(n as int).len() == 0);
    Err(missing_library_message(candidates))
}

/// The Steam installation that Proton versions are looked for under, or the
/// message that none was found.
pub fn require_steam_dir(found: Option<String>) -> (r: Result<String, String>)
    ensures
        match found {
            Some(d) => r is Ok && r->Ok_0@ == d@,
            None => r is Err && r->Err_0@ == "Steam installation not found"@,
        },
{
    match found {
        Some(d) => Ok(d),
        None => Err("Steam installation not found".to_owned()),
    }
}

/// Where the library goes in one Proton installation: its folder and the file.
pub open spec fn copy_target(proton_root: Seq<char>) -> (Seq<char>, Seq<char>) {
    let dir = path_join2(proton_root, "lib"@, "x86_64-linux-gnu"@);
    (dir, path_join(dir, "liblsfg-vk.so"@))
}

/// For each Proton installation found, the folder the library is copied into and
/// the file it is copied to; the message that none was found when there is none.
pub fn proton_copy_targets(proton_dirs: &Vec<String>) -> (r: Result<Vec<(String, String)>, String>)
    ensures
        proton_dirs@.len() == 0 <==> r is Err,
        match r {
            Ok(ts) => ts@.len() == proton_dirs@.len() && forall|i: int|
                0 <= i < ts@.len() ==> (#[trigger] ts@[i].0@, ts@[i].1@) == copy_target(
                    proton_dirs@[i]@,
                ),
            Err(m) => m@ == "No Proton installations found under Steam"@,
        },
{
    if proton_dirs.len() == 0 {
        return Err("No Proton installations found under Steam".to_owned());
    }
    let mut out: Vec<(String, String)> = Vec::new();
    let n = proton_dirs.len();
    let mut i: usize = 0;
    while i < n
        invariant
            n == proton_dirs@.len(),
            i <= n,
            out@.len() == i,
            forall|k: int| 0 <= k < i ==> (#[trigger] out@[k].0@, out@[k].1@) == copy_target(proton_dirs@[k]@),
        decreases n - i,
    {
        let dir = join2_str(proton_dirs[i].as_str(), "lib", "x86_64-linux-gnu");
        let file = join_str(dir.as_str(), "liblsfg-vk.so");
        out.push((dir, file));
        i = i + 1;
    }
    Ok(out)
}

/// The data folder the layer's manifest is written under: `XDG_DATA_HOME` when
/// it is set (even to nothing), else `.local/share` under the home folder, or
/// under `/tmp` when there is no home folder.
pub open spec fn manifest_data_dir(xdg_data_home: Option<Seq<char>>, home: Option<Seq<char>>) -> Seq<char> {
    match xdg_data_home {
        Some(x) => x,
        None => path_join2(
            match home {
                Some(h) => h,
                None => "/tmp"@,
            },
            ".local"@,
            "share"@,
        ),
    }
}

/// The folder of the layer's manifest and the manifest's file.
pub open spec fn manifest_location(xdg_data_home: Option<Seq<char>>, home: Option<Seq<char>>) -> (Seq<char>, Seq<char>) {
    let dir = path_join2(manifest_data_dir(xdg_data_home, home), "vulkan"@, "implicit_layer.d"@);
    (dir, path_join(dir, "VkLayer_LS_frame_generation.json"@))
}

/// Where the layer's manifest is written, given the value of `XDG_DATA_HOME` and
/// the home folder.
pub fn layer_manifest_location(xdg_data_home: &Option<String>, home: &Option<String>) -> (r: (String, String))
    ensures
        (r.0@, r.1@) == manifest_location(
            match xdg_data_home {
                Some(x) => Some(x@),
                None => None,
            },
            match home {
                Some(h) => Some(h@),
                None => None,
            },
        ),
{
    let data = match xdg_data_home {
        Some(x) => x.clone(),
        None => {
            let h = match home {
                Some(h) => h.clone(),
                None => "/tmp".to_owned(),
            };
            join2_str(h.as_str(), ".local", "share")
        },
    };
    let dir = join2_str(data.as_str(), "vulkan", "implicit_layer.d");
    let file = join_str(dir.as_str(), "VkLayer_LS_frame_generation.json");
    (dir, file)
}

/// The files whose presence tells whether Proton is set up: the library copy in
/// Proton Experimental and the user's layer manifest, under `home`.
pub fn proton_status_paths(home: &str) -> (r: (String, String))
    ensures
        r.0@ == path_join(
            home@,
            ".local/share/Steam/steamapps/common/Proton - Experimental/files/lib/x86_64-linux-gnu/liblsfg-vk.so"@,
        ),
        r.1@ == path_join(home@, ".local/share/vulkan/implicit_layer.d/VkLayer_LS_frame_generation.json"@),
{
    let lib = join_str(
        home,
        ".local/share/Steam/steamapps/common/Proton - Experimental/files/lib/x86_64-linux-gnu/liblsfg-vk.so",
    );
    let layer = join_str(home, ".local/share/vulkan/implicit_layer.d/VkLayer_LS_frame_generation.json");
    (lib, layer)
}

/// The files the HUD reads metrics from, in order: the file the layer writes in
/// `/tmp`, then `lsfg-vk/metrics.json` under the user's cache folder when there
/// is one.
pub open spec fn metrics_path_list(cache: Option<Seq<char>>) -> Seq<Seq<char>> {
    match cache {
        None => seq!["/tmp/lsfg-vk-metrics.json"@],
        Some(c) => seq!["/tmp/lsfg-vk-metrics.json"@, path_join2(c, "lsfg-vk"@, "metrics.json"@)],
    }
}

/// The files the HUD reads metrics from, given the user's cache folder.
pub fn metrics_paths(cache: &Option<String>) -> (r: Vec<String>)
    ensures
        strings_view(r@) == metrics_path_list(opt_chars(*cache)),
{
    let mut out: Vec<String> = Vec::new();
    out.push("/tmp/lsfg-vk-metrics.json".to_owned());
    match cache {
        None => {
            assert(strings_view(out@) =~= metrics_path_list(opt_chars(*cache)));
        },
        Some(c) => {
            out.push(join2_str(c.as_str(), "lsfg-vk", "metrics.json"));
            assert(strings_view(out@) =~= metrics_path_list(opt_chars(*cache)));
        },
    }
    out
}

/// The files the HUD reads metrics from, with the user's cache folder as `dirs`
/// reports it.
pub fn metrics_files() -> (r: Vec<String>)
    ensures
        exists|cache: Option<Seq<char>>| strings_view(r@) == metrics_path_list(cache),
{
    let cache = cache_dir();
    let r = metrics_paths(&cache);
    assert(strings_view(r@) == metrics_path_list(opt_chars(cache)));
    r
}

/// The hexadecimal digit for `d` (below 16), in lower case.
pub open spec fn hex_digit(d: u32) -> char {
    if d < 10 {
        (48 + d) as char
    } else {
        (87 + d) as char
    }
}

/// How one character is written inside a JSON string: `"` and `\` behind a
/// backslash; backspace, tab, line feed, form feed and carriage return as `\b`,
/// `\t`, `\n`, `\f`, `\r`; the other control characters below 0x20 as `\u00`
/// and two lower-case hex digits; every other character as itself.
pub open spec fn json_char(c: char) -> Seq<char> {
    let u = c as u32;
    if c == '"' {
        seq!['\\', '"']
    } else if c == '\\' {
        seq!['\\', '\\']
    } else if u == 0x08 {
        seq!['\\', 'b']
    } else if u == 0x09 {
        seq!['\\', 't']
    } else if u == 0x0A {
        seq!['\\', 'n']
    } else if u == 0x0C {
        seq!['\\', 'f']
    } else if u == 0x0D {
        seq!['\\', 'r']
    } else if u < 0x20 {
        seq!['\\', 'u', '0', '0', hex_digit(u / 16), hex_digit(u % 16)]
    } else {
        seq![c]
    }
}

/// The characters of `s`, each as it is written inside a JSON string.
pub open spec fn json_escaped(s: Seq<char>) -> Seq<char>
    decreases s.len(),
{
    if s.len() == 0 {
        seq![]
    } else {
        json_escaped(s.drop_last()) + json_char(s.last())
    }
}

/// The JSON string literal for `s`, as `serde_json::to_string` writes it: `s`
/// escaped, between double quotes.
pub open spec fn json_string(s: Seq<char>) -> Seq<char> {
    seq!['"'] + json_escaped(s) + seq!['"']
}

/// `serde_json::to_string` of a string: its JSON literal. Writing a string to
/// memory cannot fail, so the error arm is never taken.
#[verifier::external_body]
fn json_quoted(s: &str) -> (r: String)
    ensures
        r@ == json_string(s@),
{
    match serde_json::to_string(s) {
        Ok(t) => t,
        Err(_) => String::new(),
    }
}

/// The text of the layer's manifest before its library path.
pub open spec fn manifest_head() -> Seq<char> {
    "{\n  \"file_format_version\": \"1.0.0\",\n  \"layer\": {\n    \"api_version\": \"1.3.0\",\n    \"description\": \"Lossless Scaling Frame Generation (lsfg-vk)\",\n    \"disable_environment\": {\n      \"DISABLE_LSFGVK\": \"1\"\n    },\n    \"enable_environment\": {\n      \"LSFGVK_ENABLE\": \"1\"\n    },\n    \"implementation_version\": \"1\",\n    \"library_path\": "@
}

/// The text of the layer's manifest after its library path.
pub open spec fn manifest_tail() -> Seq<char> {
    ",\n    \"name\": \"VK_LAYER_LS_frame_generation\",\n    \"type\": \"GLOBAL\"\n  }\n}"@
}

/// The Vulkan layer manifest that Proton games read, for the library at the path
/// whose JSON literal is `library_json`: format 1.0.0, layer
/// `VK_LAYER_LS_frame_generation` of type `GLOBAL` for API 1.3.0, enabled by
/// `LSFGVK_ENABLE=1` and disabled by `DISABLE_LSFGVK=1`, written as
/// `serde_json::to_string_pretty` writes it (keys in order, two-space indents).
pub open spec fn manifest_text(library_json: Seq<char>) -> Seq<char> {
    manifest_head() + library_json + manifest_tail()
}

/// The layer manifest for the library at `library_path`.
pub fn layer_manifest(library_path: &str) -> (r: String)
    ensures
        r@ == manifest_text(json_string(library_path@)),
{
    let lib = json_quoted(library_path);
    let r = concat3(&text("{\n  \"file_format_version\": \"1.0.0\",\n  \"layer\": {\n    \"api_version\": \"1.3.0\",\n    \"description\": \"Lossless Scaling Frame Generation (lsfg-vk)\",\n    \"disable_environment\": {\n      \"DISABLE_LSFGVK\": \"1\"\n    },\n    \"enable_environment\": {\n      \"LSFGVK_ENABLE\": \"1\"\n    },\n    \"implementation_version\": \"1\",\n    \"library_path\": "), &chars_of(lib.as_str()), &text(",\n    \"name\": \"VK_LAYER_LS_frame_generation\",\n    \"type\": \"GLOBAL\"\n  }\n}"));
    string_of(&r)
}

} // verus!
