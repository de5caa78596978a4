//! The commands an SSH knot sends to the knot binary on the remote host:
//! each path quoted for the shell, long lists split into batches of a
//! hundred, and file contents carried in Base64.
use vstd::prelude::*;

use crate::cli::dashboard::drawing::append_chars;
use crate::configuration::strings_view;
use crate::paths::{path_components, path_starts_with, starts_with_path};
use crate::text::{chars_of, decimal_string, decimal_text, string_of};
use base64::Engine;

verus! {

/// How many paths one command carries.
pub const BATCH_SIZE: usize = 100;

/// `s` safe between single quotes: each `'` written as `'\''`.
pub open spec fn shell_escape(s: Seq<char>) -> Seq<char>
    decreases s.len(),
{
    if s.len() == 0 {
        s
    } else {
        shell_escape(s.drop_last()) + if s.last() == '\'' {
            seq!['\'', '\\', '\'', '\'']
        } else {
            seq![s.last()]
        }
    }
}

/// `s` between single quotes, escaped.
pub open spec fn quoted(s: Seq<char>) -> Seq<char> {
    seq!['\''] + shell_escape(s) + seq!['\'']
}

/// `s` between single quotes as it is (the single-path commands do not
/// escape it).
pub open spec fn raw_quoted(s: Seq<char>) -> Seq<char> {
    seq!['\''] + s + seq!['\'']
}

fn push_escaped(out: &mut Vec<char>, s: &str)
    ensures
        final(out)@ == old(out)@ + shell_escape(s@),
{
    let cs = chars_of(s);
    let ghost start = out@;
    let mut i: usize = 0;
    while i < cs.len()
        invariant
            i <= cs@.len(),
            cs@ == s@,
            out@ == start + shell_escape(cs@.take(i as int)),
        decreases cs@.len() - i,
    {
        proof {
            assert(cs@.take(i + 1).drop_last() =~= cs@.take(i as int));
        }
        let ghost before = out@;
        if cs[i] == '\'' {
            out.push('\'');
            out.push('\\');
            out.push('\'');
            out.push('\'');
        } else {
            out.push(cs[i]);
        }
        proof {
            assert(out@ =~= start + shell_escape(cs@.take(i + 1)));
        }
        i = i + 1;
    }
    proof {
        assert(cs@.take(cs@.len() as int) =~= cs@);
    }
}

/// The escaped text of `s`.
pub fn escape_for_shell(s: &str) -> (r: String)
    ensures
        r@ == shell_escape(s@),
{
    let mut out: Vec<char> = Vec::new();
    push_escaped(&mut out, s);
    proof {
        assert(out@ =~= shell_escape(s@));
    }
    string_of(out.as_slice())
}

/// What the crawl of a remote folder is asked with.
pub struct CrawlOptions {
    pub caching: bool,
    pub gitignore: bool,
    pub ignore_patterns: Vec<String>,
    pub allow_size_limit: bool,
    pub size_limit: u64,
}

/// The ` --ignore-patterns '<p>'` flags of the patterns.
pub open spec fn pattern_flags(ps: Seq<Seq<char>>) -> Seq<char>
    decreases ps.len(),
{
    if ps.len() == 0 {
        Seq::<char>::empty()
    } else {
        pattern_flags(ps.drop_last()) + " --ignore-patterns "@ + quoted(ps.last())
    }
}

/// The crawl command: compressed output, caching and `.gitignore` when
/// enabled, each ignore pattern, the size limit when allowed, then the
/// folder.
pub open spec fn crawl_command_spec(bin: Seq<char>, o: CrawlOptions, folder: Seq<char>) -> Seq<char> {
    bin + " crawl --compress"@ + (if o.caching {
        " --caching"@
    } else {
        Seq::<char>::empty()
    }) + (if o.gitignore {
        " --gitignore"@
    } else {
        Seq::<char>::empty()
    }) + pattern_flags(strings_view(o.ignore_patterns@)) + (if o.allow_size_limit {
        " --size "@ + decimal_text(o.size_limit as nat)
    } else {
        Seq::<char>::empty()
    }) + " -p "@ + quoted(folder)
}

/// Law: asking for `.gitignore` adds exactly ` --gitignore` to the crawl
/// command, right after ` crawl --compress` and the optional ` --caching`;
/// without it the command has no such flag there and is otherwise the same.
pub proof fn lemma_crawl_gitignore_flag(bin: Seq<char>, o: CrawlOptions, folder: Seq<char>)
    ensures
        ({
            let head = bin + " crawl --compress"@ + (if o.caching {
                " --caching"@
            } else {
                Seq::<char>::empty()
            });
            let on = crawl_command_spec(bin, CrawlOptions { gitignore: true, ..o }, folder);
            let off = crawl_command_spec(bin, CrawlOptions { gitignore: false, ..o }, folder);
            &&& off.len() >= head.len()
            &&& off.take(head.len() as int) == head
            &&& on == head + " --gitignore"@ + off.skip(head.len() as int)
            &&& crawl_command_spec(bin, o, folder) == (if o.gitignore {
                on
            } else {
                off
            })
        }),
{
    let head = bin + " crawl --compress"@ + (if o.caching {
        " --caching"@
    } else {
        Seq::<char>::empty()
    });
    let ot = CrawlOptions { gitignore: true, ..o };
    let of = CrawlOptions { gitignore: false, ..o };
    let tail = pattern_flags(strings_view(o.ignore_patterns@)) + (if o.allow_size_limit {
        " --size "@ + decimal_text(o.size_limit as nat)
    } else {
        Seq::<char>::empty()
    }) + " -p "@ + quoted(folder);
    let off = crawl_command_spec(bin, of, folder);
    assert(off =~= head + tail);
    assert(off.take(head.len() as int) =~= head);
    assert(off.skip(head.len() as int) =~= tail);
    assert(crawl_command_spec(bin, ot, folder) =~= head + " --gitignore"@ + tail);
    if o.gitignore {
        assert(o == ot);
    } else {
        assert(o == of);
    }
}

pub fn crawl_command(bin: &str, o: &CrawlOptions, folder: &str) -> (r: String)
    ensures
        r@ == crawl_command_spec(bin@, *o, folder@),
{
    let mut out: Vec<char> = Vec::new();
    append_chars(&mut out, bin);
    append_chars(&mut out, " crawl --compress");
    if o.caching {
        append_chars(&mut out, " --caching");
    }
    if o.gitignore {
        append_chars(&mut out, " --gitignore");
    }
    let ghost before = out@;
    let ps = &o.ignore_patterns;
    let mut i: usize = 0;
    proof {
        assert(strings_view(ps@).take(0) =~= Seq::<Seq<char>>::empty());
        assert(out@ =~= before + pattern_flags(strings_view(ps@).take(0)));
    }
    while i < ps.len()
        invariant
            i <= ps@.len(),
            out@ == before + pattern_flags(strings_view(ps@).take(i as int)),
        decreases ps@.len() - i,
    {
        proof {
            assert(strings_view(ps@).take(i + 1).drop_last() =~= strings_view(ps@).take(i as int));
            assert(strings_view(ps@).take(i + 1).last() == ps@[i as int]@);
        }
        append_chars(&mut out, " --ignore-patterns ");
        out.push('\'');
        push_escaped(&mut out, ps[i].as_str());
        out.push('\'');
        proof {
            assert(out@ =~= before + pattern_flags(strings_view(ps@).take(i + 1)));
        }
        i = i + 1;
    }
    proof {
        assert(strings_view(ps@).take(ps@.len() as int) =~= strings_view(ps@));
    }
    if o.allow_size_limit {
        append_chars(&mut out, " --size ");
        let d = decimal_string(o.size_limit);
        append_chars(&mut out, d.as_str());
    }
    append_chars(&mut out, " -p ");
    out.push('\'');
    push_escaped(&mut out, folder);
    out.push('\'');
    proof {
        assert(out@ =~= crawl_command_spec(bin@, *o, folder@));
    }
    string_of(out.as_slice())
}

/// The path of the knot binary on the remote host: `knot` when it answers
/// there (its version query ends with code 0), the local install otherwise.
pub fn remote_binary(version_exit_code: Option<u32>) -> (r: &'static str)
    ensures
        r@ == (if version_exit_code == Some(0u32) {
            "knot"@
        } else {
            "./.local/bin/knot"@
        }),
{
    match version_exit_code {
        Some(0) => "knot",
        _ => "./.local/bin/knot",
    }
}

/// A file subcommand run with the binary.
pub open spec fn file_command_spec(bin: Seq<char>, sub: Seq<char>) -> Seq<char> {
    bin + " file "@ + sub
}

/// An archive subcommand run with the binary.
pub open spec fn archive_command_spec(bin: Seq<char>, sub: Seq<char>) -> Seq<char> {
    bin + " archive-local "@ + sub
}

pub fn file_command(bin: &str, sub: &str) -> (r: String)
    ensures
        r@ == file_command_spec(bin@, sub@),
{
    let mut out: Vec<char> = Vec::new();
    append_chars(&mut out, bin);
    append_chars(&mut out, " file ");
    append_chars(&mut out, sub);
    string_of(out.as_slice())
}

pub fn archive_command(bin: &str, sub: &str) -> (r: String)
    ensures
        r@ == archive_command_spec(bin@, sub@),
{
    let mut out: Vec<char> = Vec::new();
    append_chars(&mut out, bin);
    append_chars(&mut out, " archive-local ");
    append_chars(&mut out, sub);
    string_of(out.as_slice())
}

/// The subcommands on one path: its name, a space, the path in quotes.
pub open spec fn path_subcommand_spec(name: Seq<char>, path: Seq<char>) -> Seq<char> {
    name + seq![' '] + raw_quoted(path)
}

/// `empty`, `create-dir`, `create`, `read-full` and the like, on one path.
pub fn path_subcommand(name: &str, path: &str) -> (r: String)
    ensures
        r@ == path_subcommand_spec(name@, path@),
{
    let mut out: Vec<char> = Vec::new();
    append_chars(&mut out, name);
    out.push(' ');
    out.push('\'');
    append_chars(&mut out, path);
    out.push('\'');
    proof {
        assert(out@ =~= path_subcommand_spec(name@, path@));
    }
    string_of(out.as_slice())
}

pub open spec fn rename_subcommand_spec(old_path: Seq<char>, new_path: Seq<char>) -> Seq<char> {
    "rename "@ + raw_quoted(old_path) + seq![' '] + raw_quoted(new_path)
}

pub fn rename_subcommand(old_path: &str, new_path: &str) -> (r: String)
    ensures
        r@ == rename_subcommand_spec(old_path@, new_path@),
{
    let mut out: Vec<char> = Vec::new();
    append_chars(&mut out, "rename ");
    out.push('\'');
    append_chars(&mut out, old_path);
    out.push('\'');
    out.push(' ');
    out.push('\'');
    append_chars(&mut out, new_path);
    out.push('\'');
    proof {
        assert(out@ =~= rename_subcommand_spec(old_path@, new_path@));
    }
    string_of(out.as_slice())
}

pub open spec fn read_range_subcommand_spec(path: Seq<char>, start: u64, end: u64) -> Seq<char> {
    "read-interval "@ + raw_quoted(path) + " --start "@ + decimal_text(start as nat) + " --end "@
        + decimal_text(end as nat)
}

pub fn read_range_subcommand(path: &str, start: u64, end: u64) -> (r: String)
    ensures
        r@ == read_range_subcommand_spec(path@, start, end),
{
    let mut out: Vec<char> = Vec::new();
    append_chars(&mut out, "read-interval ");
    out.push('\'');
    append_chars(&mut out, path);
    out.push('\'');
    append_chars(&mut out, " --start ");
    append_chars(&mut out, decimal_string(start).as_str());
    append_chars(&mut out, " --end ");
    append_chars(&mut out, decimal_string(end).as_str());
    proof {
        assert(out@ =~= read_range_subcommand_spec(path@, start, end));
    }
    string_of(out.as_slice())
}

/// What `base64::engine::general_purpose::STANDARD` encodes bytes as.
pub uninterp spec fn base64_standard(data: Seq<u8>) -> Seq<char>;

/// Calls `Engine::encode` of the standard Base64 engine (with padding),
/// whose text depends on the bytes alone.
#[verifier::external_body]
fn encode_base64(data: &[u8]) -> (r: String)
    ensures
        r@ == base64_standard(data@),
{
    base64::engine::general_purpose::STANDARD.encode(data)
}

/// `write` with the Base64 text of the data as it is sent.
pub open spec fn write_text_spec(path: Seq<char>, payload: Seq<char>, offset: u64) -> Seq<char> {
    "write "@ + raw_quoted(path) + " --data "@ + raw_quoted(payload) + " --offset "@ + decimal_text(
        offset as nat,
    )
}

pub open spec fn write_subcommand_spec(path: Seq<char>, data: Seq<u8>, offset: u64) -> Seq<char> {
    write_text_spec(path, base64_standard(data), offset)
}

/// Writes the data whose Base64 text is `payload` into the file at `offset`.
pub fn write_text(path: &str, payload: &str, offset: u64) -> (r: String)
    ensures
        r@ == write_text_spec(path@, payload@, offset),
{
    let mut out: Vec<char> = Vec::new();
    append_chars(&mut out, "write ");
    out.push('\'');
    append_chars(&mut out, path);
    out.push('\'');
    append_chars(&mut out, " --data ");
    out.push('\'');
    append_chars(&mut out, payload);
    out.push('\'');
    append_chars(&mut out, " --offset ");
    append_chars(&mut out, decimal_string(offset).as_str());
    proof {
        assert(out@ =~= write_text_spec(path@, payload@, offset));
    }
    string_of(out.as_slice())
}

/// Writes `data` into the file at `offset`.
pub fn write_subcommand(path: &str, data: &[u8], offset: u64) -> (r: String)
    ensures
        r@ == write_subcommand_spec(path@, data@, offset),
{
    let payload = encode_base64(data);
    write_text(path, payload.as_str(), offset)
}

/// `empty-write` with the Base64 text of the data as it is sent.
pub open spec fn overwrite_text_spec(path: Seq<char>, payload: Seq<char>) -> Seq<char> {
    "empty-write "@ + raw_quoted(path) + " --data "@ + raw_quoted(payload)
}

pub open spec fn overwrite_subcommand_spec(path: Seq<char>, data: Seq<u8>) -> Seq<char> {
    overwrite_text_spec(path, base64_standard(data))
}

/// Replaces the file's content with the data whose Base64 text is `payload`.
pub fn overwrite_text(path: &str, payload: &str) -> (r: String)
    ensures
        r@ == overwrite_text_spec(path@, payload@),
{
    let mut out: Vec<char> = Vec::new();
    append_chars(&mut out, "empty-write ");
    out.push('\'');
    append_chars(&mut out, path);
    out.push('\'');
    append_chars(&mut out, " --data ");
    out.push('\'');
    append_chars(&mut out, payload);
    out.push('\'');
    proof {
        assert(out@ =~= overwrite_text_spec(path@, payload@));
    }
    string_of(out.as_slice())
}

/// Replaces the file's content with `data`.
pub fn overwrite_subcommand(path: &str, data: &[u8]) -> (r: String)
    ensures
        r@ == overwrite_subcommand_spec(path@, data@),
{
    let payload = encode_base64(data);
    overwrite_text(path, payload.as_str())
}

/// `flag 'path'` for each path.
pub open spec fn flag_args(flag: Seq<char>, ps: Seq<Seq<char>>) -> Seq<Seq<char>> {
    ps.map_values(|p: Seq<char>| flag + seq![' '] + quoted(p))
}

/// The arguments separated by spaces.
pub open spec fn join_space(args: Seq<Seq<char>>) -> Seq<char>
    decreases args.len(),
{
    if args.len() == 0 {
        Seq::<char>::empty()
    } else if args.len() == 1 {
        args[0]
    } else {
        join_space(args.drop_last()) + seq![' '] + args.last()
    }
}

/// One command per batch of a hundred arguments (the last batch may be
/// shorter): `prefix` then the batch's arguments.
pub open spec fn batched_commands(prefix: Seq<char>, args: Seq<Seq<char>>) -> Seq<Seq<char>>
    decreases args.len(),
{
    if args.len() == 0 {
        Seq::<Seq<char>>::empty()
    } else if args.len() <= 100 {
        seq![prefix + join_space(args)]
    } else {
        seq![prefix + join_space(args.take(100))] + batched_commands(prefix, args.skip(100))
    }
}

/// `flag 'path'` for each path, each path escaped.
pub fn path_flags(flag: &str, paths: &Vec<String>) -> (r: Vec<String>)
    ensures
        strings_view(r@) == flag_args(flag@, strings_view(paths@)),
{
    let mut r: Vec<String> = Vec::new();
    let mut i: usize = 0;
    while i < paths.len()
        invariant
            i <= paths@.len(),
            strings_view(r@) == flag_args(flag@, strings_view(paths@).take(i as int)),
        decreases paths@.len() - i,
    {
        let mut out: Vec<char> = Vec::new();
        append_chars(&mut out, flag);
        out.push(' ');
        out.push('\'');
        push_escaped(&mut out, paths[i].as_str());
        out.push('\'');
        proof {
            assert(out@ =~= flag@ + seq![' '] + quoted(paths@[i as int]@));
        }
        let ghost before = strings_view(r@);
        let ghost ov = out@;
        r.push(string_of(out.as_slice()));
        proof {
            assert(strings_view(r@) =~= before.push(ov));
            assert(strings_view(paths@).take(i + 1) =~= strings_view(paths@).take(i as int).push(
                paths@[i as int]@,
            ));
            assert(strings_view(r@) =~= flag_args(flag@, strings_view(paths@).take(i + 1)));
        }
        i = i + 1;
    }
    proof {
        assert(strings_view(paths@).take(paths@.len() as int) =~= strings_view(paths@));
    }
    r
}

fn push_joined(out: &mut Vec<char>, args: &Vec<String>, from: usize, to: usize)
    requires
        from < to <= args@.len(),
    ensures
        final(out)@ == old(out)@ + join_space(strings_view(args@).subrange(from as int, to as int)),
{
    let ghost start = out@;
    let ghost all = strings_view(args@);
    let mut i: usize = from;
    while i < to
        invariant
            from <= i <= to <= args@.len(),
            all == strings_view(args@),
            out@ == start + join_space(all.subrange(from as int, i as int)),
        decreases to - i,
    {
        if i > from {
            out.push(' ');
        }
        append_chars(out, args[i].as_str());
        proof {
            let sub = all.subrange(from as int, i + 1);
            assert(sub.drop_last() =~= all.subrange(from as int, i as int));
            assert(sub.last() == args@[i as int]@);
            if i == from {
                assert(sub.len() == 1);
                assert(sub[0] == args@[i as int]@);
            }
            assert(out@ =~= start + join_space(sub));
        }
        i = i + 1;
    }
}

/// The commands for a list of arguments, a hundred to a command.
pub fn batched(prefix: &str, args: &Vec<String>) -> (r: Vec<String>)
    ensures
        strings_view(r@) == batched_commands(prefix@, strings_view(args@)),
{
    let n = args.len();
    let mut cmds: Vec<String> = Vec::new();
    let mut start: usize = 0;
    let ghost ps = strings_view(args@);
    proof {
        assert(ps.skip(0) =~= ps);
    }
    while start < n
        invariant
            n == args@.len(),
            ps == strings_view(args@),
            start <= n,
            strings_view(cmds@) + batched_commands(prefix@, ps.skip(start as int))
                == batched_commands(prefix@, ps),
        decreases n - start,
    {
        let end = if n - start > BATCH_SIZE {
            start + BATCH_SIZE
        } else {
            n
        };
        let mut out: Vec<char> = Vec::new();
        append_chars(&mut out, prefix);
        push_joined(&mut out, args, start, end);
        let ghost rest = ps.skip(start as int);
        let ghost before = strings_view(cmds@);
        proof {
            if n - start > 100 {
                assert(rest.take(100) =~= ps.subrange(start as int, end as int));
                assert(rest.skip(100) =~= ps.skip(end as int));
            } else {
                assert(rest =~= ps.subrange(start as int, end as int));
                assert(ps.skip(end as int) =~= Seq::<Seq<char>>::empty());
            }
        }
        cmds.push(string_of(out.as_slice()));
        proof {
            assert(strings_view(cmds@) =~= before.push(out@));
            assert(strings_view(cmds@) + batched_commands(prefix@, ps.skip(end as int))
                =~= before + batched_commands(prefix@, rest));
        }
        start = end;
    }
    proof {
        assert(ps.skip(n as int) =~= Seq::<Seq<char>>::empty());
        assert(strings_view(cmds@) + Seq::<Seq<char>>::empty() =~= strings_view(cmds@));
    }
    cmds
}

/// The commands that delete the paths.
pub fn delete_commands(paths: &Vec<String>) -> (r: Vec<String>)
    ensures
        strings_view(r@) == batched_commands("delete "@, flag_args("--path"@, strings_view(paths@))),
{
    let args = path_flags("--path", paths);
    batched("delete ", &args)
}

/// The commands that recover archived paths, overwriting what is there when
/// `force`.
pub fn recover_commands(paths: &Vec<String>, force: bool) -> (r: Vec<String>)
    ensures
        strings_view(r@) == batched_commands(
            if force {
                "recover --force "@
            } else {
                "recover "@
            },
            flag_args("--target"@, strings_view(paths@)),
        ),
{
    let args = path_flags("--target", paths);
    if force {
        batched("recover --force ", &args)
    } else {
        batched("recover ", &args)
    }
}

/// The commands that archive the files and then the directories.
pub fn archive_commands(files: &Vec<String>, dirs: &Vec<String>) -> (r: Vec<String>)
    ensures
        strings_view(r@) == batched_commands(
            "compress "@,
            flag_args("--file"@, strings_view(files@)) + flag_args("--dir"@, strings_view(dirs@)),
        ),
{
    let mut args = path_flags("--file", files);
    let mut d = path_flags("--dir", dirs);
    let ghost a = strings_view(args@);
    let ghost b = strings_view(d@);
    args.append(&mut d);
    proof {
        assert(strings_view(args@) =~= a + b);
    }
    batched("compress ", &args)
}

/// The number of components of a path.
pub open spec fn depth(p: Seq<char>) -> nat {
    path_components(p).len()
}

/// `x` put into `s` (ordered deepest first) after the paths at least as deep.
pub open spec fn insert_by_depth(x: Seq<char>, s: Seq<Seq<char>>) -> Seq<Seq<char>>
    decreases s.len(),
{
    if s.len() == 0 {
        seq![x]
    } else if depth(x) > depth(s[0]) {
        seq![x] + s
    } else {
        seq![s[0]] + insert_by_depth(x, s.drop_first())
    }
}

/// The paths ordered deepest first, paths of one depth in their order.
pub open spec fn deepest_first(s: Seq<Seq<char>>) -> Seq<Seq<char>>
    decreases s.len(),
{
    if s.len() == 0 {
        s
    } else {
        insert_by_depth(s.last(), deepest_first(s.drop_last()))
    }
}

/// The directories worth creating, taken in order: a directory is left out
/// when one already kept lies under it (creating that one creates it).
pub open spec fn kept_dirs(s: Seq<Seq<char>>) -> Seq<Seq<char>>
    decreases s.len(),
{
    if s.len() == 0 {
        s
    } else {
        let prev = kept_dirs(s.drop_last());
        if exists|i: int| 0 <= i < prev.len() && path_starts_with(prev[i], s.last()) {
            prev
        } else {
            prev.push(s.last())
        }
    }
}

proof fn lemma_insert_by_depth_at(x: Seq<char>, s: Seq<Seq<char>>, j: int)
    requires
        0 <= j <= s.len(),
        forall|k: int| 0 <= k < j ==> !(depth(x) > depth(#[trigger] s[k])),
        j < s.len() ==> depth(x) > depth(s[j]),
    ensures
        insert_by_depth(x, s) == s.take(j) + seq![x] + s.skip(j),
    decreases s.len(),
{
    if s.len() == 0 {
        assert(s.take(j) + seq![x] + s.skip(j) =~= seq![x]);
    } else if j == 0 {
        assert(s.take(j) + seq![x] + s.skip(j) =~= seq![x] + s);
    } else {
        lemma_insert_by_depth_at(x, s.drop_first(), j - 1);
        assert(s.take(j) + seq![x] + s.skip(j) =~= seq![s[0]] + (s.drop_first().take(j - 1)
            + seq![x] + s.drop_first().skip(j - 1)));
    }
}

fn path_depth(p: &String) -> (r: usize)
    ensures
        r == depth(p@),
{
    crate::paths::components_of(&chars_of(p.as_str())).len()
}

/// The directories to create for `dirs` on a remote knot, in one command
/// per hundred: deepest first, each left out when a kept one lies under it.
pub fn mkdir_batch_commands(dirs: &Vec<String>) -> (r: Vec<String>)
    ensures
        strings_view(r@) == batched_commands(
            "create-dirs "@,
            flag_args("--path"@, kept_dirs(deepest_first(strings_view(dirs@)))),
        ),
{
    // deepest first, stably
    let mut sorted: Vec<String> = Vec::new();
    let mut k: usize = 0;
    while k < dirs.len()
        invariant
            k <= dirs@.len(),
            strings_view(sorted@) == deepest_first(strings_view(dirs@).take(k as int)),
        decreases dirs@.len() - k,
    {
        let ghost cur = strings_view(sorted@);
        let dk = path_depth(&dirs[k]);
        let mut j: usize = 0;
        while j < sorted.len() && !(dk > path_depth(&sorted[j]))
            invariant
                j <= sorted@.len(),
                k < dirs@.len(),
                dk == depth(dirs@[k as int]@),
                cur == strings_view(sorted@),
                forall|q: int| 0 <= q < j ==> !(depth(dirs@[k as int]@) > depth(#[trigger] cur[q])),
            decreases sorted@.len() - j,
        {
            proof {
                assert(cur[j as int] == sorted@[j as int]@);
            }
            j = j + 1;
        }
        proof {
            if j < sorted@.len() {
                assert(cur[j as int] == sorted@[j as int]@);
            }
            lemma_insert_by_depth_at(dirs@[k as int]@, cur, j as int);
            assert(strings_view(dirs@).take(k + 1).drop_last() =~= strings_view(dirs@).take(k as int));
            assert(strings_view(dirs@).take(k + 1).last() == dirs@[k as int]@);
        }
        sorted.insert(j, dirs[k].clone());
        proof {
            assert(strings_view(sorted@) =~= cur.take(j as int) + seq![dirs@[k as int]@] + cur.skip(
                j as int,
            ));
        }
        k = k + 1;
    }
    proof {
        assert(strings_view(dirs@).take(dirs@.len() as int) =~= strings_view(dirs@));
    }
    // keep a directory unless a kept one lies under it
    let mut kept: Vec<String> = Vec::new();
    let mut i: usize = 0;
    let ghost srt = strings_view(sorted@);
    while i < sorted.len()
        invariant
            i <= sorted@.len(),
            srt == strings_view(sorted@),
            strings_view(kept@) == kept_dirs(srt.take(i as int)),
        decreases sorted@.len() - i,
    {
        proof {
            assert(srt.take(i + 1).drop_last() =~= srt.take(i as int));
            assert(srt.take(i + 1).last() == sorted@[i as int]@);
        }
        let ghost prev = strings_view(kept@);
        let mut covered = false;
        let mut q: usize = 0;
        while q < kept.len()
            invariant
                q <= kept@.len(),
                i < sorted@.len(),
                prev == strings_view(kept@),
                covered == (exists|w: int| 0 <= w < q && path_starts_with(prev[w], sorted@[i as int]@)),
            decreases kept@.len() - q,
        {
            if starts_with_path(kept[q].as_str(), sorted[i].as_str()) {
                proof {
                    assert(prev[q as int] == kept@[q as int]@);
                }
                covered = true;
            } else {
                proof {
                    assert(prev[q as int] == kept@[q as int]@);
                }
            }
            q = q + 1;
        }
        if !covered {
            kept.push(sorted[i].clone());
            proof {
                assert(strings_view(kept@) =~= prev.push(sorted@[i as int]@));
            }
        }
        i = i + 1;
    }
    proof {
        assert(srt.take(sorted@.len() as int) =~= srt);
    }
    let args = path_flags("--path", &kept);
    batched("create-dirs ", &args)
}


pub(crate) proof fn lemma_starts_with_itself(p: Seq<char>)
    ensures
        path_starts_with(p, p),
{
    let c = path_components(p);
    assert(c.take(c.len() as int) =~= c);
}

proof fn lemma_insert_by_depth_keeps(x: Seq<char>, s: Seq<Seq<char>>)
    ensures
        insert_by_depth(x, s).contains(x),
        forall|i: int| 0 <= i < s.len() ==> insert_by_depth(x, s).contains(#[trigger] s[i]),
    decreases s.len(),
{
    let r = insert_by_depth(x, s);
    if s.len() == 0 {
        assert(r[0] == x);
    } else if depth(x) > depth(s[0]) {
        assert(r[0] == x);
        assert forall|i: int| 0 <= i < s.len() implies r.contains(#[trigger] s[i]) by {
            assert(r[i + 1] == s[i]);
        }
    } else {
        let t = s.drop_first();
        lemma_insert_by_depth_keeps(x, t);
        let r2 = insert_by_depth(x, t);
        let w = choose|w: int| 0 <= w < r2.len() && r2[w] == x;
        assert(r[w + 1] == x);
        assert forall|i: int| 0 <= i < s.len() implies r.contains(#[trigger] s[i]) by {
            if i == 0 {
                assert(r[0] == s[0]);
            } else {
                assert(t[i - 1] == s[i]);
                assert(r2.contains(t[i - 1]));
                let v = choose|v: int| 0 <= v < r2.len() && r2[v] == t[i - 1];
                assert(r[v + 1] == s[i]);
            }
        }
    }
}

proof fn lemma_deepest_first_keeps(s: Seq<Seq<char>>)
    ensures
        forall|i: int| 0 <= i < s.len() ==> deepest_first(s).contains(#[trigger] s[i]),
    decreases s.len(),
{
    if s.len() > 0 {
        let init = s.drop_last();
        lemma_deepest_first_keeps(init);
        let prev = deepest_first(init);
        lemma_insert_by_depth_keeps(s.last(), prev);
        assert forall|i: int| 0 <= i < s.len() implies deepest_first(s).contains(#[trigger] s[i]) by {
            if i < s.len() - 1 {
                assert(init[i] == s[i]);
                assert(prev.contains(init[i]));
                let w = choose|w: int| 0 <= w < prev.len() && prev[w] == init[i];
                assert(prev[w] == s[i]);
            }
        }
    }
}

proof fn lemma_kept_dirs_cover(t: Seq<Seq<char>>)
    ensures
        forall|i: int|
            0 <= i < t.len() ==> exists|k: int|
                0 <= k < kept_dirs(t).len() && path_starts_with(
                    #[trigger] kept_dirs(t)[k],
                    #[trigger] t[i],
                ),
        forall|k: int| 0 <= k < kept_dirs(t.drop_last()).len() && t.len() > 0 ==> kept_dirs(t)[k]
            == kept_dirs(t.drop_last())[k],
    decreases t.len(),
{
    if t.len() > 0 {
        let init = t.drop_last();
        lemma_kept_dirs_cover(init);
        let prev = kept_dirs(init);
        let r = kept_dirs(t);
        assert forall|k: int| 0 <= k < prev.len() implies r[k] == prev[k] by {}
        assert forall|i: int| 0 <= i < t.len() implies exists|k: int|
            0 <= k < r.len() && path_starts_with(#[trigger] r[k], #[trigger] t[i]) by {
            if i < t.len() - 1 {
                assert(init[i] == t[i]);
                let k = choose|k: int| 0 <= k < prev.len() && path_starts_with(prev[k], init[i]);
                assert(r[k] == prev[k]);
            } else if exists|w: int| 0 <= w < prev.len() && path_starts_with(prev[w], t.last()) {
                let w = choose|w: int| 0 <= w < prev.len() && path_starts_with(prev[w], t.last());
                assert(r[w] == prev[w]);
            } else {
                lemma_starts_with_itself(t.last());
                assert(r[prev.len() as int] == t.last());
            }
        }
    }
}

/// Law: leaving directories out loses none: every directory asked for lies
/// under (or is) one of those the commands create.
pub proof fn lemma_mkdir_batch_covers(dirs: Seq<Seq<char>>)
    ensures
        forall|i: int|
            0 <= i < dirs.len() ==> exists|k: int|
                0 <= k < kept_dirs(deepest_first(dirs)).len() && path_starts_with(
                    #[trigger] kept_dirs(deepest_first(dirs))[k],
                    #[trigger] dirs[i],
                ),
{
    let t = deepest_first(dirs);
    lemma_deepest_first_keeps(dirs);
    lemma_kept_dirs_cover(t);
    assert forall|i: int| 0 <= i < dirs.len() implies exists|k: int|
        0 <= k < kept_dirs(t).len() && path_starts_with(#[trigger] kept_dirs(t)[k], #[trigger] dirs[i]) by {
        assert(t.contains(dirs[i]));
        let w = choose|w: int| 0 <= w < t.len() && t[w] == dirs[i];
        let k = choose|k: int| 0 <= k < kept_dirs(t).len() && path_starts_with(kept_dirs(t)[k], t[w]);
        assert(path_starts_with(kept_dirs(t)[k], dirs[i]));
    }
}


/// The command that streams a local file into `target` on the remote host,
/// written first to `temporal`.
pub open spec fn write_stream_spec(bin: Seq<char>, target: Seq<char>, temporal: Seq<char>) -> Seq<char> {
    bin + " file write-stream "@ + raw_quoted(target) + " --temporal-path "@ + raw_quoted(temporal)
}

pub fn write_stream_command(bin: &str, target: &str, temporal: &str) -> (r: String)
    ensures
        r@ == write_stream_spec(bin@, target@, temporal@),
{
    let mut out: Vec<char> = Vec::new();
    append_chars(&mut out, bin);
    append_chars(&mut out, " file write-stream ");
    out.push('\'');
    append_chars(&mut out, target);
    out.push('\'');
    append_chars(&mut out, " --temporal-path ");
    out.push('\'');
    append_chars(&mut out, temporal);
    out.push('\'');
    proof {
        assert(out@ =~= write_stream_spec(bin@, target@, temporal@));
    }
    string_of(out.as_slice())
}

/// The command that streams a remote file back.
pub open spec fn read_stream_spec(bin: Seq<char>, path: Seq<char>) -> Seq<char> {
    bin + " file read-stream "@ + raw_quoted(path)
}

pub fn read_stream_command(bin: &str, path: &str) -> (r: String)
    ensures
        r@ == read_stream_spec(bin@, path@),
{
    let mut out: Vec<char> = Vec::new();
    append_chars(&mut out, bin);
    append_chars(&mut out, " file read-stream ");
    out.push('\'');
    append_chars(&mut out, path);
    out.push('\'');
    proof {
        assert(out@ =~= read_stream_spec(bin@, path@));
    }
    string_of(out.as_slice())
}

/// Where the knot binary is put on a remote host.
pub const REMOTE_BINARY_PATH: &'static str = "~/.local/bin/knot";

/// The binary a remote knot uses, and whether it has to be uploaded first:
/// `knot` when its version query succeeds; the local install otherwise,
/// uploaded when that query says the command was not found (code 127).
pub fn binary_plan(knot_code: Option<u32>, local_code: Option<u32>) -> (r: (&'static str, bool))
    ensures
        knot_code == Some(0u32) ==> r.0@ == "knot"@ && !r.1,
        knot_code != Some(0u32) ==> r.0@ == "./.local/bin/knot"@ && r.1 == (local_code == Some(
            127u32,
        )),
{
    match knot_code {
        Some(0) => ("knot", false),
        _ => ("./.local/bin/knot", local_code == Some(127)),
    }
}

/// How many bytes of Base64 one message of an upload carries.
pub const UPLOAD_CHUNK: usize = 16000;

/// The pieces of `data` of `size` bytes each, the last one shorter.
pub open spec fn chunks_spec(data: Seq<u8>, size: nat) -> Seq<Seq<u8>>
    decreases data.len(),
{
    if data.len() == 0 || size == 0 {
        Seq::<Seq<u8>>::empty()
    } else if data.len() <= size {
        seq![data]
    } else {
        seq![data.take(size as int)] + chunks_spec(data.skip(size as int), size)
    }
}

/// The pieces put back together.
pub open spec fn concat_chunks(cs: Seq<Seq<u8>>) -> Seq<u8>
    decreases cs.len(),
{
    if cs.len() == 0 {
        Seq::<u8>::empty()
    } else {
        cs[0] + concat_chunks(cs.drop_first())
    }
}

/// Law: the pieces of an upload put back together are the data, and none
/// is longer than a piece may be.
pub proof fn lemma_chunks_concat(data: Seq<u8>, size: nat)
    requires
        size > 0,
    ensures
        concat_chunks(chunks_spec(data, size)) == data,
        forall|i: int|
            0 <= i < chunks_spec(data, size).len() ==> (#[trigger] chunks_spec(data, size)[i]).len()
                <= size,
    decreases data.len(),
{
    if data.len() == 0 {
    } else if data.len() <= size {
        let cs = chunks_spec(data, size);
        assert(cs.drop_first() =~= Seq::<Seq<u8>>::empty());
        assert(concat_chunks(cs.drop_first()) == Seq::<u8>::empty());
        assert(cs[0] == data);
        assert(concat_chunks(cs) == cs[0] + concat_chunks(cs.drop_first()));
        assert(concat_chunks(cs) =~= data);
    } else {
        let rest = data.skip(size as int);
        lemma_chunks_concat(rest, size);
        let cs = chunks_spec(data, size);
        assert(cs.drop_first() =~= chunks_spec(rest, size));
        assert(cs[0] == data.take(size as int));
        assert(concat_chunks(cs) == cs[0] + concat_chunks(cs.drop_first()));
        assert(concat_chunks(cs) =~= data);
        assert forall|i: int| 0 <= i < cs.len() implies (#[trigger] cs[i]).len() <= size by {
            if i > 0 {
                assert(cs[i] == chunks_spec(rest, size)[i - 1]);
            }
        }
    }
}

/// The bytes of `data` in pieces of `size`.
pub fn chunks(data: &[u8], size: usize) -> (r: Vec<Vec<u8>>)
    requires
        size > 0,
    ensures
        r@.map_values(|c: Vec<u8>| c@) == chunks_spec(data@, size as nat),
{
    let mut out: Vec<Vec<u8>> = Vec::new();
    let mut start: usize = 0;
    let n = data.len();
    proof {
        assert(data@.skip(0) =~= data@);
    }
    while start < n
        invariant
            size > 0,
            n == data@.len(),
            start <= n,
            out@.map_values(|c: Vec<u8>| c@) + chunks_spec(data@.skip(start as int), size as nat)
                == chunks_spec(data@, size as nat),
        decreases n - start,
    {
        let end = if n - start > size {
            start + size
        } else {
            n
        };
        let mut piece: Vec<u8> = Vec::new();
        let mut i: usize = start;
        while i < end
            invariant
                start <= i <= end <= n,
                n == data@.len(),
                piece@ == data@.subrange(start as int, i as int),
            decreases end - i,
        {
            piece.push(data[i]);
            proof {
                assert(data@.subrange(start as int, i + 1) =~= data@.subrange(start as int, i as int).push(
                    data@[i as int],
                ));
            }
            i = i + 1;
        }
        let ghost rest = data@.skip(start as int);
        let ghost before = out@.map_values(|c: Vec<u8>| c@);
        proof {
            if n - start > size {
                assert(rest.take(size as int) =~= piece@);
                assert(rest.skip(size as int) =~= data@.skip(end as int));
            } else {
                assert(rest =~= piece@);
                assert(data@.skip(end as int) =~= Seq::<u8>::empty());
            }
        }
        let ghost pv = piece@;
        out.push(piece);
        proof {
            assert(out@.map_values(|c: Vec<u8>| c@) =~= before.push(pv));
            assert(out@.map_values(|c: Vec<u8>| c@) + chunks_spec(data@.skip(end as int), size as nat)
                =~= before + chunks_spec(rest, size as nat));
        }
        start = end;
    }
    proof {
        assert(data@.skip(n as int) =~= Seq::<u8>::empty());
        assert(out@.map_values(|c: Vec<u8>| c@) + Seq::<Seq<u8>>::empty() =~= out@.map_values(
            |c: Vec<u8>| c@,
        ));
    }
    out
}


/// Makes the folder the knot binary is installed into on a remote host.
pub const PREPARE_BINARY_FOLDER: &'static str = "mkdir -p ~/.local/bin";

/// Decodes the Base64 text sent on its input into the knot binary.
pub const DECODE_BINARY: &'static str = "base64 -d > ~/.local/bin/knot";

/// Makes the uploaded knot binary executable.
pub const MAKE_BINARY_EXECUTABLE: &'static str = "chmod +x ~/.local/bin/knot";

/// The messages that upload the knot binary to a remote host: the bytes of
/// its Base64 text, in pieces of `UPLOAD_CHUNK`.
pub fn upload_payload(binary: &[u8]) -> (r: Vec<Vec<u8>>)
    ensures
        r@.map_values(|c: Vec<u8>| c@) == chunks_spec(
            vstd::utf8::encode_utf8(base64_standard(binary@)),
            UPLOAD_CHUNK as nat,
        ),
{
    let text = encode_base64(binary);
    let bytes = text.as_str().as_bytes();
    chunks(bytes, UPLOAD_CHUNK)
}


/// The shell command that tests a session.
pub const HELLO_COMMAND: &'static str = "echo hello from SSH";

/// The shell command that removes a path with everything under it (the path
/// is passed to the shell as it is).
pub fn remove_shell_command(path: &str) -> (r: String)
    ensures
        r@ == "rm -rf "@ + path@,
{
    let mut out: Vec<char> = Vec::new();
    append_chars(&mut out, "rm -rf ");
    append_chars(&mut out, path);
    string_of(out.as_slice())
}

/// The shell command that moves a path (both passed to the shell as they
/// are).
pub fn move_shell_command(old_path: &str, new_path: &str) -> (r: String)
    ensures
        r@ == "mv "@ + old_path@ + " "@ + new_path@,
{
    let mut out: Vec<char> = Vec::new();
    append_chars(&mut out, "mv ");
    append_chars(&mut out, old_path);
    append_chars(&mut out, " ");
    append_chars(&mut out, new_path);
    string_of(out.as_slice())
}

} // verus!
