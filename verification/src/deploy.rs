//! Deployment planning: the remote commands of a release, the remote and
//! local file names, the choice of SSH authentication, the outcome of each
//! remote step, rollbacks, the release snapshot and the log lines.
use vstd::prelude::*;

use crate::error::AppError;
use crate::config::{opt_view, opt_views, ServerConfig};
use crate::outside::{char_alphanumeric, glob_match, glob_pattern_matches, glob_pattern_valid, is_alphanumeric};
use crate::text::{
    decimal, lemma_decimal_digits, lemma_decimal_injective, lemma_split_at_last, push_decimal, views,
};
use vstd::utf8::encode_utf8;

verus! {

pub const SYNC_A: &'static str = "set -e;\nrel_root=\"";

pub const SYNC_B: &'static str = "/releases/";

pub const SYNC_C: &'static str = "\";\nshared_root=\"";

pub const SYNC_D: &'static str = "/shared\";\nhashes=\"";

pub const SYNC_E: &'static str = "\";\n\nmkdir -p \"$shared_root\";\n\nif [ -f \"$hashes\" ]; then\n    linked=0\n    overwritten=0\n    skipped=0\n\n    while IFS= read -r p; do\n        [ -z \"$p\" ] && continue\n\n        src=\"$rel_root/$p\"\n        dst=\"$shared_root/$p\"\n\n        if [ ! -f \"$src\" ]; then\n            echo \"[shared] skip, src not found: $src\"\n            skipped=$((skipped + 1))\n            continue\n        fi\n\n        mkdir -p \"$(dirname \"$dst\")\"\n\n        if [ -e \"$dst\" ]; then\n            overwritten=$((overwritten + 1))\n            rm -f \"$dst\"\n        fi\n\n        ln \"$src\" \"$dst\"\n        linked=$((linked + 1))\n    done < \"$hashes\"\n\n    echo \"[shared] done: linked=$linked overwritten=$overwritten skipped=$skipped\"\nelse\n    echo \"[shared] hashes file not found: $hashes\"\nfi\n\ntrue";

pub const CLEAN_SHARED_A: &'static str = "set -e;\ndeploy_root=\"";

pub const CLEAN_SHARED_B: &'static str = "\";\nreleases_root=\"$deploy_root/releases\";\nshared_root=\"$deploy_root/shared\";\nkeep=\"";

pub const CLEAN_SHARED_C: &'static str = "\";\ntmp_root=\"";

pub const CLEAN_SHARED_D: &'static str = "\";\nnow_ts=\"";

pub const CLEAN_SHARED_E: &'static str = "\";\ncleanup_deleted_release=0\ncleanup_deleted_shared=0\n\nif [ \"$keep\" -eq 0 ]; then\n    echo \"[cleanup] keep_releases=0, skip cleanup\"\nelse\n    mkdir -p \"$tmp_root\"\n\n    # Keep the newest $keep release directories (named YYYYMMDD_HHMMSS)\n    # by modification time; other directories are left alone.\n    if [ -d \"$releases_root\" ]; then\n        seen=0\n        while IFS= read -r rel_name; do\n            [ -z \"$rel_name\" ] && continue\n            rel=\"$releases_root/$rel_name\"\n            [ -d \"$rel\" ] || continue\n            printf '%s\\n' \"$rel_name\" | grep -Eq '^[0-9]{8}_[0-9]{6}$' || continue\n            seen=$((seen + 1))\n            [ \"$seen\" -le \"$keep\" ] && continue\n            rm -rf \"$rel\"\n            cleanup_deleted_release=$((cleanup_deleted_release + 1))\n        done <<SHIPFE_RELEASES\n$(ls -1t \"$releases_root\" 2>/dev/null)\nSHIPFE_RELEASES\n    fi\n\n    # Remove every shared file that no kept release lists in its snapshot.\n    if [ -d \"$shared_root\" ]; then\n        refs_tmp=\"$tmp_root/shipfe_shared_refs_${now_ts}.txt\"\n        rm -f \"$refs_tmp\"\n        touch \"$refs_tmp\"\n\n        for rel in \"$releases_root\"/*; do\n            [ -d \"$rel\" ] || continue\n            snapshot=\"$rel/shipfe.snapshot.json\"\n            [ -f \"$snapshot\" ] || continue\n            awk '/\"hashed_assets\"[[:space:]]*:/ { if ($0 ~ /\\]/) next; in_list=1; next }\n                 in_list && /]/ { in_list=0; next }\n                 in_list {\n                     gsub(/^[[:space:]]*\"/, \"\");\n                     gsub(/\",?[[:space:]]*$/, \"\");\n                     if (length($0)) print\n                 }' \"$snapshot\" >> \"$refs_tmp\"\n        done\n\n        sort -u \"$refs_tmp\" -o \"$refs_tmp\"\n\n        while IFS= read -r shared_file; do\n            [ -z \"$shared_file\" ] && continue\n            rel_path=\"${shared_file#\"$shared_root\"/}\"\n            if ! grep -Fxq -- \"$rel_path\" \"$refs_tmp\"; then\n                rm -f \"$shared_file\"\n                cleanup_deleted_shared=$((cleanup_deleted_shared + 1))\n            fi\n        done <<SHIPFE_SHARED\n$(find \"$shared_root\" -type f 2>/dev/null)\nSHIPFE_SHARED\n\n        rm -f \"$refs_tmp\"\n        find \"$shared_root\" -mindepth 1 -depth -type d -empty -delete || true\n    fi\nfi\n\nkept_release_count=0\nshared_total_count=0\nif [ -d \"$releases_root\" ]; then\n    kept_release_count=$(\n        find \"$releases_root\" -mindepth 1 -maxdepth 1 -type d 2>/dev/null \\\n            | sed \"s#^$releases_root/##\" \\\n            | grep -E '^[0-9]{8}_[0-9]{6}$' \\\n            | wc -l | tr -d ' '\n    )\nfi\nif [ -d \"$shared_root\" ]; then\n    shared_total_count=$(find \"$shared_root\" -type f 2>/dev/null | wc -l | tr -d ' ')\nfi\necho \"[cleanup] done: releases_deleted=$cleanup_deleted_release shared_deleted=$cleanup_deleted_shared releases_kept=$kept_release_count shared_files=$shared_total_count\"\n\ntrue";

pub const CLEAN_A: &'static str = "set -e;\ndeploy_root=\"";

pub const CLEAN_B: &'static str = "\";\nreleases_root=\"$deploy_root/releases\";\nkeep=\"";

pub const CLEAN_C: &'static str = "\";\n\nif [ \"$keep\" -eq 0 ]; then\n    echo \"[cleanup] keep_releases=0, skip release cleanup\"\nelif [ -d \"$releases_root\" ]; then\n    # Keep the newest $keep release directories (named YYYYMMDD_HHMMSS)\n    # by modification time; other directories are left alone.\n    seen=0\n    while IFS= read -r rel_name; do\n        [ -z \"$rel_name\" ] && continue\n        rel=\"$releases_root/$rel_name\"\n        [ -d \"$rel\" ] || continue\n        printf '%s\\n' \"$rel_name\" | grep -Eq '^[0-9]{8}_[0-9]{6}$' || continue\n        seen=$((seen + 1))\n        [ \"$seen\" -le \"$keep\" ] && continue\n        rm -rf \"$rel\"\n    done <<SHIPFE_RELEASES\n$(ls -1t \"$releases_root\" 2>/dev/null)\nSHIPFE_RELEASES\nfi\n\ntrue";

/// One command run on the server, with the label that names the step.
#[derive(Debug)]
pub struct RemoteStep {
    pub label: String,
    pub command: String,
}

pub open spec fn step_views(v: Seq<RemoteStep>) -> Seq<(Seq<char>, Seq<char>)> {
    v.map_values(|s: RemoteStep| (s.label@, s.command@))
}

/// Where the releases of a deployment live.
pub open spec fn releases_dir(d: Seq<char>) -> Seq<char> {
    d + "/releases"@
}

/// The script that hard-links each hashed asset of release `t` (listed one
/// per line in `hashes`) into `shared/`, replacing an earlier file there.
pub open spec fn sync_script(d: Seq<char>, t: Seq<char>, hashes: Seq<char>) -> Seq<char> {
    SYNC_A@ + d + SYNC_B@ + t + SYNC_C@ + d + SYNC_D@ + hashes + SYNC_E@
}

/// The script that keeps the `keep` most recently modified release
/// directories (those named `YYYYMMDD_HHMMSS`; other directories are left
/// alone) and then removes every shared file that no remaining release lists
/// in its snapshot (nothing is cleaned when `keep` is 0).
pub open spec fn cleanup_shared_script(d: Seq<char>, keep: nat, tmp: Seq<char>, t: Seq<char>) -> Seq<
    char,
> {
    CLEAN_SHARED_A@ + d + CLEAN_SHARED_B@ + decimal(keep) + CLEAN_SHARED_C@ + tmp + CLEAN_SHARED_D@ + t
        + CLEAN_SHARED_E@
}

/// The script that keeps the `keep` most recently modified release
/// directories (those named `YYYYMMDD_HHMMSS`; other directories are left
/// alone; all of them when `keep` is 0).
pub open spec fn cleanup_script(d: Seq<char>, keep: nat) -> Seq<char> {
    CLEAN_A@ + d + CLEAN_B@ + decimal(keep) + CLEAN_C@
}

/// The command that points `current` at release `t`.
pub open spec fn switch_current_spec(d: Seq<char>, t: Seq<char>) -> Seq<char> {
    "cd "@ + d + " && ln -sfn releases/"@ + t + " current"@
}

/// The steps run on a server to install release `t` from the uploaded
/// archive, in order: prepare the directories, unpack the release, link its
/// shared assets, switch `current` to the complete release, then clean up
/// old releases and remove the uploaded files.
pub open spec fn deploy_steps_spec(
    d: Seq<char>,
    tmp: Seq<char>,
    t: Seq<char>,
    archive: Seq<char>,
    hashes: Seq<char>,
    shared: bool,
    with_assets: bool,
    keep: nat,
) -> Seq<(Seq<char>, Seq<char>)> {
    let dp = releases_dir(d);
    seq![("prepare releases directory"@, "mkdir -p "@ + dp)] + (if shared {
        seq![("prepare shared directory"@, "mkdir -p "@ + d + "/shared"@)]
    } else {
        seq![]
    }) + seq![
        ("create release directory"@, "cd "@ + dp + " && mkdir -p "@ + t),
        ("extract archive"@, "cd "@ + dp + " && tar -xzf "@ + archive + " -C "@ + t
            + " --strip-components=1"@),
    ] + (if shared && with_assets {
        seq![("sync shared assets"@, sync_script(d, t, hashes))]
    } else {
        seq![]
    }) + seq![("switch current symlink"@, switch_current_spec(d, t))] + (if shared {
        seq![("cleanup old releases and shared assets"@, cleanup_shared_script(d, keep, tmp, t))]
    } else {
        seq![("cleanup old releases"@, cleanup_script(d, keep))]
    }) + seq![("remove remote archive"@, "rm -f "@ + archive)] + (if shared && with_assets {
        seq![("remove shared asset manifest"@, "rm -f "@ + hashes)]
    } else {
        seq![]
    })
}

fn push_step(steps: &mut Vec<RemoteStep>, label: &str, command: String)
    ensures
        step_views(final(steps)@) == step_views(old(steps)@).push((label@, command@)),
{
    let s = RemoteStep { label: label.to_string(), command };
    steps.push(s);
    assert(step_views(final(steps)@) =~= step_views(old(steps)@).push((label@, command@)));
}

fn cat2(a: &str, b: &str) -> (r: String)
    ensures
        r@ == a@ + b@,
{
    let mut s = a.to_string();
    s.append(b);
    s
}

/// The commands that install release `timestamp` on a server.
/// `remote_archive` and `remote_hashes` are the uploaded archive and list of
/// hashed assets, `with_assets` whether there are hashed assets to share.
pub fn deploy_steps(
    remote_deploy_path: &str,
    remote_tmp: &str,
    timestamp: &str,
    remote_archive: &str,
    remote_hashes: &str,
    enable_shared: bool,
    with_assets: bool,
    keep_releases: u32,
) -> (r: Vec<RemoteStep>)
    ensures
        step_views(r@) == deploy_steps_spec(
            remote_deploy_path@,
            remote_tmp@,
            timestamp@,
            remote_archive@,
            remote_hashes@,
            enable_shared,
            with_assets,
            keep_releases as nat,
        ),
{
    let d = remote_deploy_path;
    let t = timestamp;
    let dp = cat2(d, "/releases");
    let mut steps: Vec<RemoteStep> = Vec::new();
    push_step(&mut steps, "prepare releases directory", cat2("mkdir -p ", dp.as_str()));
    let ghost s1 = step_views(steps@);
    if enable_shared {
        let mut c = cat2("mkdir -p ", d);
        c.append("/shared");
        push_step(&mut steps, "prepare shared directory", c);
    }
    let ghost s2 = step_views(steps@);
    let mut c = cat2("cd ", dp.as_str());
    c.append(" && mkdir -p ");
    c.append(t);
    push_step(&mut steps, "create release directory", c);
    let mut c = cat2("cd ", dp.as_str());
    c.append(" && tar -xzf ");
    c.append(remote_archive);
    c.append(" -C ");
    c.append(t);
    c.append(" --strip-components=1");
    push_step(&mut steps, "extract archive", c);
    let ghost s3 = step_views(steps@);
    if enable_shared && with_assets {
        let mut c = cat2(SYNC_A, d);
        c.append(SYNC_B);
        c.append(t);
        c.append(SYNC_C);
        c.append(d);
        c.append(SYNC_D);
        c.append(remote_hashes);
        c.append(SYNC_E);
        push_step(&mut steps, "sync shared assets", c);
    }
    let ghost s4 = step_views(steps@);
    let mut c = cat2("cd ", d);
    c.append(" && ln -sfn releases/");
    c.append(t);
    c.append(" current");
    push_step(&mut steps, "switch current symlink", c);
    if enable_shared {
        let mut c = cat2(CLEAN_SHARED_A, d);
        c.append(CLEAN_SHARED_B);
        push_decimal(&mut c, keep_releases as u64);
        c.append(CLEAN_SHARED_C);
        c.append(remote_tmp);
        c.append(CLEAN_SHARED_D);
        c.append(t);
        c.append(CLEAN_SHARED_E);
        push_step(&mut steps, "cleanup old releases and shared assets", c);
    } else {
        let mut c = cat2(CLEAN_A, d);
        c.append(CLEAN_B);
        push_decimal(&mut c, keep_releases as u64);
        c.append(CLEAN_C);
        push_step(&mut steps, "cleanup old releases", c);
    }
    let ghost s6 = step_views(steps@);
    push_step(&mut steps, "remove remote archive", cat2("rm -f ", remote_archive));
    let ghost s7 = step_views(steps@);
    if enable_shared && with_assets {
        push_step(&mut steps, "remove shared asset manifest", cat2("rm -f ", remote_hashes));
    }
    assert(step_views(steps@) =~= deploy_steps_spec(
        remote_deploy_path@,
        remote_tmp@,
        timestamp@,
        remote_archive@,
        remote_hashes@,
        enable_shared,
        with_assets,
        keep_releases as nat,
    ));
    steps
}


/// Index of the last `c` in `s`, or -1.
pub open spec fn last_index_of(s: Seq<char>, c: char) -> int
    decreases s.len(),
{
    if s.len() == 0 {
        -1
    } else if s.last() == c {
        s.len() - 1
    } else {
        last_index_of(s.drop_last(), c)
    }
}

proof fn lemma_last_index_of(s: Seq<char>, c: char)
    ensures
        -1 <= last_index_of(s, c) < s.len(),
        last_index_of(s, c) >= 0 ==> s[last_index_of(s, c)] == c,
        forall|j: int| last_index_of(s, c) < j < s.len() ==> s[j] != c,
        last_index_of(s, c) >= 0 <==> s.contains(c),
    decreases s.len(),
{
    if s.len() > 0 && s.last() != c {
        lemma_last_index_of(s.drop_last(), c);
        assert forall|j: int| last_index_of(s, c) < j < s.len() implies s[j] != c by {
            if j < s.len() - 1 {
                assert(s[j] == s.drop_last()[j]);
            }
        }
        if s.contains(c) {
            let k = choose|k: int| 0 <= k < s.len() && s[k] == c;
            assert(s.drop_last()[k] == c);
        }
        if s.drop_last().contains(c) {
            let k = choose|k: int| 0 <= k < s.drop_last().len() && s.drop_last()[k] == c;
            assert(s[k] == c);
        }
    } else if s.len() > 0 {
        assert(s[s.len() - 1] == c);
    }
}

proof fn lemma_last_index_at(s: Seq<char>, c: char, m: int)
    requires
        -1 <= m < s.len(),
        m >= 0 ==> s[m] == c,
        forall|j: int| m < j < s.len() ==> s[j] != c,
    ensures
        last_index_of(s, c) == m,
    decreases s.len(),
{
    if s.len() > 0 && m < s.len() - 1 {
        lemma_last_index_at(s.drop_last(), c, m);
    }
}

/// Finds the last `c` among the first `end` characters of `s`.
fn last_index(s: &str, c: char, end: usize) -> (r: Option<usize>)
    requires
        end <= s@.len(),
    ensures
        match r {
            Some(k) => k == last_index_of(s@.subrange(0, end as int), c),
            None => last_index_of(s@.subrange(0, end as int), c) == -1,
        },
{
    let mut j = end;
    while j > 0
        invariant
            j <= end <= s@.len(),
            forall|q: int| j <= q < end ==> s@[q] != c,
        decreases j,
    {
        if s.get_char(j - 1) == c {
            proof {
                lemma_last_index_at(s@.subrange(0, end as int), c, j - 1);
            }
            return Some(j - 1);
        }
        j = j - 1;
    }
    proof {
        lemma_last_index_at(s@.subrange(0, end as int), c, -1);
    }
    None
}

/// The file-name piece that the default rule reads the hash from: what
/// stands between the last two dots of a path (or before the last dot).
pub open spec fn hash_segment(p: Seq<char>) -> Seq<char> {
    let k = last_index_of(p, '.');
    let prefix = p.subrange(0, k);
    prefix.subrange(last_index_of(prefix, '.') + 1, k)
}

/// Whether `name` ends in `-` followed by at least six bytes of
/// alphanumeric characters.
pub open spec fn hash_suffix(name: Seq<char>) -> bool {
    let dash = last_index_of(name, '-');
    &&& dash >= 0
    &&& encode_utf8(name.subrange(dash + 1, name.len() as int)).len() >= 6
    &&& forall|i: int| dash + 1 <= i < name.len() ==> char_alphanumeric(#[trigger] name[i])
}

/// The default rule for hashed assets, when no patterns are configured: the
/// path holds `-` and `.`, and the piece before the extension ends in `-`
/// followed by at least six bytes of alphanumeric characters
/// (`app-abc123.js`).
pub open spec fn default_hashed(p: Seq<char>) -> bool {
    &&& p.contains('-')
    &&& p.contains('.')
    &&& hash_suffix(hash_segment(p))
}

/// Whether some configured pattern compiles and matches `p`.
pub open spec fn matches_some_pattern(patterns: Seq<Seq<char>>, p: Seq<char>) -> bool {
    exists|i: int|
        0 <= i < patterns.len() && glob_pattern_valid(#[trigger] patterns[i])
            && glob_pattern_matches(patterns[i], p)
}

/// Whether the file at relative path `p` is a hashed asset: by the
/// configured glob patterns when there are any, else by the default rule.
pub open spec fn is_hashed_asset_spec(p: Seq<char>, patterns: Option<Seq<Seq<char>>>) -> bool {
    match patterns {
        Some(ps) => matches_some_pattern(ps, p),
        None => default_hashed(p),
    }
}

fn all_alphanumeric(s: &str) -> (r: bool)
    ensures
        r == forall|j: int| 0 <= j < s@.len() ==> char_alphanumeric(#[trigger] s@[j]),
{
    let n = s.unicode_len();
    let mut i: usize = 0;
    while i < n
        invariant
            n == s@.len(),
            i <= n,
            forall|j: int| 0 <= j < i ==> char_alphanumeric(#[trigger] s@[j]),
        decreases n - i,
    {
        if !is_alphanumeric(s.get_char(i)) {
            return false;
        }
        i = i + 1;
    }
    true
}

fn hash_suffix_exec(name: &str) -> (r: bool)
    ensures
        r == hash_suffix(name@),
{
    let m = name.unicode_len();
    let dash = last_index(name, '-', m);
    assert(name@.subrange(0, m as int) == name@);
    proof {
        lemma_last_index_of(name@, '-');
    }
    match dash {
        Some(dp) => {
            let after = name.substring_char(dp + 1, m);
            assert(after@ == name@.subrange(dp + 1, name@.len() as int));
            let bytes = after.as_bytes();
            assert(bytes@ == encode_utf8(after@));
            if bytes.len() < 6 {
                false
            } else {
                let ok = all_alphanumeric(after);
                assert(ok == forall|i: int|
                    dp + 1 <= i < name@.len() ==> char_alphanumeric(#[trigger] name@[i])) by {
                    if ok {
                        assert forall|i: int| dp + 1 <= i < name@.len() implies char_alphanumeric(
                            #[trigger] name@[i],
                        ) by {
                            assert(name@[i] == after@[i - dp - 1]);
                        }
                    } else {
                        let j = choose|j: int| 0 <= j < after@.len() && !char_alphanumeric(after@[j]);
                        assert(name@[dp + 1 + j] == after@[j]);
                    }
                }
                ok
            }
        },
        None => false,
    }
}

fn hash_segment_exec(p: &str, k: usize) -> (r: &str)
    requires
        k == last_index_of(p@, '.'),
        0 <= k < p@.len(),
    ensures
        r@ == hash_segment(p@),
{
    let prev = last_index(p, '.', k);
    proof {
        lemma_last_index_of(p@.subrange(0, k as int), '.');
    }
    let start = match prev {
        Some(q) => q + 1,
        None => 0,
    };
    p.substring_char(start, k)
}

fn default_hashed_exec(p: &str) -> (r: bool)
    ensures
        r == default_hashed(p@),
{
    let n = p.unicode_len();
    let dot = last_index(p, '.', n);
    let dash_any = last_index(p, '-', n);
    assert(p@.subrange(0, n as int) == p@);
    proof {
        lemma_last_index_of(p@, '.');
        lemma_last_index_of(p@, '-');
    }
    match (dot, dash_any) {
        (Some(k), Some(_)) => {
            let name = hash_segment_exec(p, k);
            hash_suffix_exec(name)
        },
        _ => false,
    }
}

/// Whether the file at `rel_path` (relative to the dist directory) is a
/// hashed asset.
pub fn is_hashed_asset(rel_path: &str, patterns: &Option<Vec<String>>) -> (r: bool)
    ensures
        r == is_hashed_asset_spec(rel_path@, opt_views(*patterns)),
{
    match patterns {
        Some(pats) => {
            assert(opt_views(*patterns) == Some(views(pats@)));
            let mut i: usize = 0;
            while i < pats.len()
                invariant
                    i <= pats.len(),
                    opt_views(*patterns) == Some(views(pats@)),
                    forall|j: int|
                        0 <= j < i ==> !(glob_pattern_valid(#[trigger] views(pats@)[j])
                            && glob_pattern_matches(views(pats@)[j], rel_path@)),
                decreases pats.len() - i,
            {
                let m = glob_match(pats[i].as_str(), rel_path);
                assert(views(pats@)[i as int] == pats@[i as int]@);
                match m {
                    Some(true) => {
                        assert(glob_pattern_valid(views(pats@)[i as int]) && glob_pattern_matches(
                            views(pats@)[i as int],
                            rel_path@,
                        ));
                        return true;
                    },
                    _ => {},
                }
                i = i + 1;
            }
            assert(opt_views(*patterns) == Some(views(pats@)));
            false
        },
        None => default_hashed_exec(rel_path),
    }
}


/// The manifest of a release, written as `shipfe.snapshot.json` into the
/// dist directory: every file, and those among them that are hashed assets.
#[derive(Debug)]
pub struct Snapshot {
    pub id: String,
    pub timestamp: String,
    pub files: Vec<String>,
    pub hashed_assets: Vec<String>,
}

/// The hashed assets among `files`, in the order of `files`.
pub open spec fn hashed_assets_spec(files: Seq<Seq<char>>, patterns: Option<Seq<Seq<char>>>) -> Seq<
    Seq<char>,
> {
    files.filter(|p: Seq<char>| is_hashed_asset_spec(p, patterns))
}

/// The snapshot of release `id` taken at `timestamp`, of the files found in
/// the dist directory (paths relative to it, in the order found).
pub fn build_snapshot(
    id: String,
    timestamp: String,
    files: Vec<String>,
    patterns: &Option<Vec<String>>,
) -> (r: Snapshot)
    ensures
        r.id@ == id@,
        r.timestamp@ == timestamp@,
        views(r.files@) == views(files@),
        views(r.hashed_assets@) == hashed_assets_spec(views(files@), opt_views(*patterns)),
{
    let ghost pv = opt_views(*patterns);
    let mut hashed: Vec<String> = Vec::new();
    let mut i: usize = 0;
    while i < files.len()
        invariant
            i <= files.len(),
            pv == opt_views(*patterns),
            views(hashed@) == hashed_assets_spec(views(files@.subrange(0, i as int)), pv),
        decreases files.len() - i,
    {
        let ghost before = views(files@.subrange(0, i as int));
        assert(views(files@.subrange(0, i + 1)) == before.push(files@[i as int]@));
        reveal_with_fuel(Seq::<_>::filter, 1);
        assert(before.push(files@[i as int]@).drop_last() == before);
        if is_hashed_asset(files[i].as_str(), patterns) {
            let ghost old_h = hashed@;
            hashed.push(files[i].clone());
            assert(views(hashed@) =~= views(old_h).push(files@[i as int]@));
        }
        i = i + 1;
    }
    assert(files@.subrange(0, files@.len() as int) == files@);
    Snapshot { id, timestamp, files, hashed_assets: hashed }
}

proof fn lemma_filter_within(s: Seq<Seq<char>>, pred: spec_fn(Seq<char>) -> bool)
    ensures
        forall|x: Seq<char>| s.filter(pred).contains(x) ==> s.contains(x),
    decreases s.len(),
{
    reveal(Seq::filter);
    if s.len() > 0 {
        lemma_filter_within(s.drop_last(), pred);
        assert forall|x: Seq<char>| s.filter(pred).contains(x) implies s.contains(x) by {
            let f = s.filter(pred);
            let sub = s.drop_last().filter(pred);
            let j = choose|j: int| 0 <= j < f.len() && f[j] == x;
            if pred(s.last()) && j == f.len() - 1 {
                assert(s[s.len() - 1] == x);
            } else {
                assert(sub[j] == x);
                assert(sub.contains(x));
                assert(s.drop_last().contains(x));
                let k = choose|k: int| 0 <= k < s.drop_last().len() && s.drop_last()[k] == x;
                assert(s[k] == x);
            }
        }
    }
}

/// The default rule reads the hash after the last dash: a path made of any
/// text without dots (dashes allowed), a dash, a run of at least six bytes of
/// alphanumeric characters, a dot and an extension without dots is a hashed
/// asset when no patterns are configured (`assets/vendor-react-abc123.js`).
pub proof fn lemma_default_rule_last_dash(x: Seq<char>, h: Seq<char>, e: Seq<char>)
    requires
        !x.contains('.'),
        !h.contains('.'),
        !h.contains('-'),
        !e.contains('.'),
        encode_utf8(h).len() >= 6,
        forall|i: int| 0 <= i < h.len() ==> char_alphanumeric(#[trigger] h[i]),
    ensures
        is_hashed_asset_spec(x + seq!['-'] + h + seq!['.'] + e, None),
{
    let name = x + seq!['-'] + h;
    let p = name + seq!['.'] + e;
    let k = name.len() as int;
    assert forall|j: int| k < j < p.len() implies p[j] != '.' by {
        assert(p[j] == e[j - k - 1]);
        if p[j] == '.' {
            assert(e.contains('.'));
        }
    }
    assert(p[k] == '.');
    lemma_last_index_at(p, '.', k);
    assert(p.subrange(0, k) =~= name);
    assert forall|j: int| -1 < j < name.len() implies name[j] != '.' by {
        if j < x.len() {
            assert(name[j] == x[j]);
            if x[j] == '.' {
                assert(x.contains('.'));
            }
        } else if j > x.len() {
            assert(name[j] == h[j - x.len() - 1]);
            if h[j - x.len() - 1] == '.' {
                assert(h.contains('.'));
            }
        }
    }
    lemma_last_index_at(name, '.', -1);
    assert(name.subrange(0, k) =~= name);
    assert(hash_segment(p) =~= name);
    let dk = x.len() as int;
    assert forall|j: int| dk < j < name.len() implies name[j] != '-' by {
        assert(name[j] == h[j - dk - 1]);
        if h[j - dk - 1] == '-' {
            assert(h.contains('-'));
        }
    }
    assert(name[dk] == '-');
    lemma_last_index_at(name, '-', dk);
    assert(name.subrange(dk + 1, name.len() as int) =~= h);
    assert(p.contains('-')) by {
        assert(p[dk] == '-');
    }
    assert(p.contains('.'));
    assert forall|i: int| dk + 1 <= i < name.len() implies char_alphanumeric(#[trigger] name[i]) by {
        assert(name[i] == h[i - dk - 1]);
    }
}

/// Every hashed asset of a snapshot is one of its files.
pub proof fn lemma_hashed_assets_are_files(files: Seq<Seq<char>>, patterns: Option<Seq<Seq<char>>>)
    ensures
        forall|x: Seq<char>| hashed_assets_spec(files, patterns).contains(x) ==> files.contains(x),
{
    lemma_filter_within(files, |p: Seq<char>| is_hashed_asset_spec(p, patterns));
}

/// The snapshot file of a dist directory.
pub fn snapshot_path(dist_path: &str) -> (r: String)
    ensures
        r@ == dist_path@ + "/shipfe.snapshot.json"@,
{
    cat2(dist_path, "/shipfe.snapshot.json")
}

/// The hashed assets a deployment shares: those of the snapshot it read
/// back (none when it could not read one), when sharing is enabled.
pub fn assets_to_share(enable_shared: bool, snapshot_assets: Option<Vec<String>>) -> (r: Vec<
    String,
>)
    ensures
        views(r@) == (if enable_shared && snapshot_assets is Some {
            views(snapshot_assets.unwrap()@)
        } else {
            Seq::<Seq<char>>::empty()
        }),
{
    if enable_shared {
        match snapshot_assets {
            Some(v) => v,
            None => Vec::new(),
        }
    } else {
        Vec::new()
    }
}

fn file_name(prefix: &str, timestamp: &str, pid: u32, suffix: &str) -> (r: String)
    ensures
        r@ == prefix@ + timestamp@ + "_"@ + decimal(pid as nat) + suffix@,
{
    let mut s = cat2(prefix, timestamp);
    s.append("_");
    push_decimal(&mut s, pid as u64);
    s.append(suffix);
    s
}

/// The uploaded archive on the server, unique to this deployment.
pub open spec fn remote_archive_spec(tmp: Seq<char>, t: Seq<char>, pid: nat) -> Seq<char> {
    tmp + "/shipfe_dist_"@ + t + "_"@ + decimal(pid) + ".tar.gz"@
}

/// The uploaded list of hashed assets on the server.
pub open spec fn remote_hashes_spec(tmp: Seq<char>, t: Seq<char>, pid: nat) -> Seq<char> {
    tmp + "/shipfe_current_hashes_"@ + t + "_"@ + decimal(pid) + ".txt"@
}

proof fn lemma_name_parts(t1: Seq<char>, p1: nat, t2: Seq<char>, p2: nat)
    requires
        t1 + "_"@ + decimal(p1) == t2 + "_"@ + decimal(p2),
    ensures
        t1 == t2,
        p1 == p2,
{
    reveal_strlit("_");
    assert("_"@ =~= seq!['_']);
    lemma_decimal_digits(p1);
    lemma_decimal_digits(p2);
    let d1 = decimal(p1);
    let d2 = decimal(p2);
    assert(!d1.contains('_')) by {
        if d1.contains('_') {
            let k = choose|k: int| 0 <= k < d1.len() && d1[k] == '_';
            assert(48 <= d1[k] as u32 <= 57);
        }
    }
    assert(!d2.contains('_')) by {
        if d2.contains('_') {
            let k = choose|k: int| 0 <= k < d2.len() && d2[k] == '_';
            assert(48 <= d2[k] as u32 <= 57);
        }
    }
    lemma_split_at_last('_', t1, t2, d1, d2);
    lemma_decimal_injective(p1, p2);
}

/// Deployments that differ in release or process upload to different files
/// in the same temporary directory, so they do not overwrite each other.
pub proof fn lemma_upload_names_unique(tmp: Seq<char>, t1: Seq<char>, p1: nat, t2: Seq<char>, p2: nat)
    requires
        t1 != t2 || p1 != p2,
    ensures
        remote_archive_spec(tmp, t1, p1) != remote_archive_spec(tmp, t2, p2),
        remote_hashes_spec(tmp, t1, p1) != remote_hashes_spec(tmp, t2, p2),
{
    let pre_a = tmp + "/shipfe_dist_"@;
    let pre_h = tmp + "/shipfe_current_hashes_"@;
    let m1 = t1 + "_"@ + decimal(p1);
    let m2 = t2 + "_"@ + decimal(p2);
    if remote_archive_spec(tmp, t1, p1) == remote_archive_spec(tmp, t2, p2) {
        let suf = ".tar.gz"@;
        assert(remote_archive_spec(tmp, t1, p1) =~= pre_a + m1 + suf);
        assert(remote_archive_spec(tmp, t2, p2) =~= pre_a + m2 + suf);
        assert(m1 =~= (pre_a + m1 + suf).subrange(pre_a.len() as int, (pre_a.len() + m1.len()) as int));
        assert(m2 =~= (pre_a + m2 + suf).subrange(pre_a.len() as int, (pre_a.len() + m2.len()) as int));
        lemma_name_parts(t1, p1, t2, p2);
    }
    if remote_hashes_spec(tmp, t1, p1) == remote_hashes_spec(tmp, t2, p2) {
        let suf = ".txt"@;
        assert(remote_hashes_spec(tmp, t1, p1) =~= pre_h + m1 + suf);
        assert(remote_hashes_spec(tmp, t2, p2) =~= pre_h + m2 + suf);
        assert(m1 =~= (pre_h + m1 + suf).subrange(pre_h.len() as int, (pre_h.len() + m1.len()) as int));
        assert(m2 =~= (pre_h + m2 + suf).subrange(pre_h.len() as int, (pre_h.len() + m2.len()) as int));
        lemma_name_parts(t1, p1, t2, p2);
    }
}

pub fn remote_archive_path(remote_tmp: &str, timestamp: &str, pid: u32) -> (r: String)
    ensures
        r@ == remote_archive_spec(remote_tmp@, timestamp@, pid as nat),
{
    let prefix = cat2(remote_tmp, "/shipfe_dist_");
    let r = file_name(prefix.as_str(), timestamp, pid, ".tar.gz");
    assert(r@ =~= remote_archive_spec(remote_tmp@, timestamp@, pid as nat));
    r
}

pub fn remote_hashes_path(remote_tmp: &str, timestamp: &str, pid: u32) -> (r: String)
    ensures
        r@ == remote_hashes_spec(remote_tmp@, timestamp@, pid as nat),
{
    let prefix = cat2(remote_tmp, "/shipfe_current_hashes_");
    let r = file_name(prefix.as_str(), timestamp, pid, ".txt");
    assert(r@ =~= remote_hashes_spec(remote_tmp@, timestamp@, pid as nat));
    r
}

/// The local archive of the dist directory (under `/tmp`).
pub fn local_archive_path(timestamp: &str, pid: u32) -> (r: String)
    ensures
        r@ == remote_archive_spec("/tmp"@, timestamp@, pid as nat),
{
    remote_archive_path("/tmp", timestamp, pid)
}

/// The local list of hashed assets before upload (under `/tmp`).
pub fn local_hashes_path(timestamp: &str, pid: u32) -> (r: String)
    ensures
        r@ == remote_hashes_spec("/tmp"@, timestamp@, pid as nat),
{
    remote_hashes_path("/tmp", timestamp, pid)
}

/// The number of releases a deployment keeps: `delete_old` keeps only the
/// release just deployed, whatever `keep_releases` says.
pub open spec fn releases_to_keep(keep_releases: u32, delete_old: bool) -> u32 {
    if delete_old {
        1
    } else {
        keep_releases
    }
}

pub fn effective_keep_releases(keep_releases: u32, delete_old: bool) -> (r: u32)
    ensures
        r == releases_to_keep(keep_releases, delete_old),
{
    if delete_old {
        1
    } else {
        keep_releases
    }
}


/// How to authenticate to a server over SSH.
#[derive(Debug)]
pub enum AuthMethod {
    /// With the server's password.
    Password(String),
    /// With the private key held in `SSH_PRIVATE_KEY`.
    PrivateKey(String),
    /// With the private key in the server's key file.
    KeyFile(String),
    /// With nothing: the server cannot be reached.
    Unavailable,
}

/// The view of an authentication choice: a tag (0 password, 1 key from the
/// environment, 2 key file, 3 none) and its secret or path.
pub open spec fn auth_view(a: AuthMethod) -> (int, Seq<char>) {
    match a {
        AuthMethod::Password(p) => (0, p@),
        AuthMethod::PrivateKey(k) => (1, k@),
        AuthMethod::KeyFile(f) => (2, f@),
        AuthMethod::Unavailable => (3, Seq::empty()),
    }
}

/// The method tried for a server, in the documented order: its password,
/// else the key in `SSH_PRIVATE_KEY` (`env_private_key`), else its key file.
/// Only that one method is tried.
pub open spec fn auth_choice(s: crate::config::ServerView, env_private_key: Option<Seq<char>>) -> (
    int,
    Seq<char>,
) {
    match s.password {
        Some(p) => (0, p),
        None => match env_private_key {
            Some(k) => (1, k),
            None => match s.key_path {
                Some(f) => (2, f),
                None => (3, Seq::empty()),
            },
        },
    }
}

pub fn choose_auth(server: &ServerConfig, env_private_key: Option<String>) -> (r: AuthMethod)
    ensures
        auth_view(r) == auth_choice(server@, opt_view(env_private_key)),
{
    match &server.password {
        Some(p) => AuthMethod::Password(p.clone()),
        None => match env_private_key {
            Some(k) => AuthMethod::PrivateKey(k),
            None => match &server.key_path {
                Some(f) => AuthMethod::KeyFile(f.clone()),
                None => AuthMethod::Unavailable,
            },
        },
    }
}

/// The error when the chosen method does not authenticate.
pub fn auth_failed() -> (r: AppError)
    ensures
        r.message() == "SSH authentication failed"@,
{
    AppError::Invalid("SSH authentication failed".to_string())
}

fn str_eq(a: &str, b: &str) -> (r: bool)
    ensures
        r == (a@ == b@),
{
    let x = a.to_string();
    let y = b.to_string();
    x == y
}

/// What a finished remote step means: an exit status other than 0 fails
/// the deployment with the command and its output; otherwise the steps that
/// are timed report under a name (`unzip`, `sync shared assets`, `cleanup`).
pub open spec fn step_outcome_spec(label: Seq<char>, command: Seq<char>, status: i32, output: Seq<
    char,
>) -> Result<Option<Seq<char>>, Seq<char>> {
    if status != 0 {
        Err("Command failed: "@ + command + "\n---- remote output ----\n"@ + output)
    } else if label == "extract archive"@ {
        Ok(Some("unzip"@))
    } else if label == "sync shared assets"@ {
        Ok(Some("sync shared assets"@))
    } else if label == "cleanup old releases and shared assets"@ || label
        == "cleanup old releases"@ {
        Ok(Some("cleanup"@))
    } else {
        Ok(None)
    }
}

/// The command that removes release `t` again after a failed step.
pub open spec fn discard_release_spec(d: Seq<char>, t: Seq<char>) -> Seq<char> {
    "rm -rf "@ + d + "/releases/"@ + t
}

/// Whether a step runs once `current` points at the new release: the
/// cleanup of old releases and the removal of the uploaded files.
pub open spec fn after_switch(label: Seq<char>) -> bool {
    ||| label == "cleanup old releases and shared assets"@
    ||| label == "cleanup old releases"@
    ||| label == "remove remote archive"@
    ||| label == "remove shared asset manifest"@
}

/// What the deployment does after a remote step.
#[derive(Debug)]
pub enum StepNext {
    /// Go on with the next step; the step is reported under this name when
    /// it has one.
    Continue(Option<String>),
    /// Stop and fail with `error`; run `cleanup` first when there is one, to
    /// remove the unfinished release.
    Abort { cleanup: Option<String>, error: AppError },
}

/// The next move of the deployment of release `timestamp` under
/// `remote_deploy_path`, after the step `label` ran `command` and ended with
/// `status` and `output`. A step that fails before `current` points at the
/// new release removes the unfinished release, and `current` keeps pointing
/// at the running one; a step that fails afterwards leaves the new, complete
/// release in place.
pub fn step_outcome(
    remote_deploy_path: &str,
    timestamp: &str,
    label: &str,
    command: &str,
    status: i32,
    output: &str,
) -> (r: StepNext)
    ensures
        match (r, step_outcome_spec(label@, command@, status, output@)) {
            (StepNext::Continue(Some(a)), Ok(Some(b))) => a@ == b,
            (StepNext::Continue(None), Ok(None)) => true,
            (StepNext::Abort { cleanup, error }, Err(m)) => error.message() == m && match cleanup {
                Some(c) => !after_switch(label@) && c@ == discard_release_spec(
                    remote_deploy_path@,
                    timestamp@,
                ),
                None => after_switch(label@),
            },
            _ => false,
        },
{
    if status != 0 {
        let mut m = cat2("Command failed: ", command);
        m.append("\n---- remote output ----\n");
        m.append(output);
        let live = str_eq(label, "cleanup old releases and shared assets") || str_eq(
            label,
            "cleanup old releases",
        ) || str_eq(label, "remove remote archive") || str_eq(label, "remove shared asset manifest");
        let cleanup = if live {
            None
        } else {
            let mut c = cat2("rm -rf ", remote_deploy_path);
            c.append("/releases/");
            c.append(timestamp);
            Some(c)
        };
        return StepNext::Abort { cleanup, error: AppError::Invalid(m) };
    }
    if str_eq(label, "extract archive") {
        StepNext::Continue(Some("unzip".to_string()))
    } else if str_eq(label, "sync shared assets") {
        StepNext::Continue(Some("sync shared assets".to_string()))
    } else if str_eq(label, "cleanup old releases and shared assets") || str_eq(
        label,
        "cleanup old releases",
    ) {
        StepNext::Continue(Some("cleanup".to_string()))
    } else {
        StepNext::Continue(None)
    }
}

/// The command that tells whether release `v` exists.
pub open spec fn rollback_check_spec(d: Seq<char>, v: Seq<char>) -> Seq<char> {
    "test -d "@ + d + "/releases/"@ + v
}


pub fn rollback_check_command(remote_deploy_path: &str, version: &str) -> (r: String)
    ensures
        r@ == rollback_check_spec(remote_deploy_path@, version@),
{
    let mut c = cat2("test -d ", remote_deploy_path);
    c.append("/releases/");
    c.append(version);
    c
}

pub fn rollback_switch_command(remote_deploy_path: &str, version: &str) -> (r: String)
    ensures
        r@ == switch_current_spec(remote_deploy_path@, version@),
{
    let mut c = cat2("cd ", remote_deploy_path);
    c.append(" && ln -sfn releases/");
    c.append(version);
    c.append(" current");
    c
}

/// The error when release `v` is not on the server.
pub fn version_missing(version: &str) -> (r: AppError)
    ensures
        r.message() == "Version "@ + version@ + " does not exist on server"@,
{
    let mut m = cat2("Version ", version);
    m.append(" does not exist on server");
    AppError::Invalid(m)
}

/// The error when switching `current` to release `v` fails.
pub fn rollback_failed(version: &str, output: &str) -> (r: AppError)
    ensures
        r.message() == "Failed to rollback to version "@ + version@ + ": "@ + output@,
{
    let mut m = cat2("Failed to rollback to version ", version);
    m.append(": ");
    m.append(output);
    AppError::Invalid(m)
}

/// A rollback to a release points `current` at it with the very command
/// that deploying the release used.
pub proof fn lemma_rollback_switch_is_deploy_switch(
    d: Seq<char>,
    tmp: Seq<char>,
    t: Seq<char>,
    archive: Seq<char>,
    hashes: Seq<char>,
    shared: bool,
    with_assets: bool,
    keep: nat,
)
    ensures
        deploy_steps_spec(d, tmp, t, archive, hashes, shared, with_assets, keep).contains(
            ("switch current symlink"@, switch_current_spec(d, t)),
        ),
{
    let steps = deploy_steps_spec(d, tmp, t, archive, hashes, shared, with_assets, keep);
    let j = 3 + (if shared { 1int } else { 0 }) + (if shared && with_assets { 1int } else { 0 });
    assert(steps[j] == ("switch current symlink"@, switch_current_spec(d, t)));
}

/// The outcome of the check that release `version` exists, by its exit
/// status: a missing release fails the rollback.
pub fn rollback_check_outcome(version: &str, status: i32) -> (r: Result<(), AppError>)
    ensures
        r is Ok <==> status == 0,
        r matches Err(e) ==> e.message() == "Version "@ + version@ + " does not exist on server"@,
{
    if status != 0 {
        Err(version_missing(version))
    } else {
        Ok(())
    }
}

/// The outcome of switching `current` to release `version`, by the exit
/// status and output of the switch.
pub fn rollback_switch_outcome(version: &str, status: i32, output: &str) -> (r: Result<
    (),
    AppError,
>)
    ensures
        r is Ok <==> status == 0,
        r matches Err(e) ==> e.message() == "Failed to rollback to version "@ + version@ + ": "@
            + output@,
{
    if status != 0 {
        Err(rollback_failed(version, output))
    } else {
        Ok(())
    }
}

proof fn lemma_step_labels()
    ensures
        !after_switch("prepare releases directory"@),
        !after_switch("prepare shared directory"@),
        !after_switch("create release directory"@),
        !after_switch("extract archive"@),
        !after_switch("sync shared assets"@),
        !after_switch("switch current symlink"@),
        "prepare releases directory"@ != "switch current symlink"@,
        "prepare shared directory"@ != "switch current symlink"@,
        "create release directory"@ != "switch current symlink"@,
        "extract archive"@ != "switch current symlink"@,
        "sync shared assets"@ != "switch current symlink"@,
        "cleanup old releases and shared assets"@ != "switch current symlink"@,
        "cleanup old releases"@ != "switch current symlink"@,
        "remove remote archive"@ != "switch current symlink"@,
        "remove shared asset manifest"@ != "switch current symlink"@,
{
    reveal_strlit("prepare releases directory");
    reveal_strlit("prepare shared directory");
    reveal_strlit("create release directory");
    reveal_strlit("extract archive");
    reveal_strlit("sync shared assets");
    reveal_strlit("switch current symlink");
    reveal_strlit("cleanup old releases and shared assets");
    reveal_strlit("cleanup old releases");
    reveal_strlit("remove remote archive");
    reveal_strlit("remove shared asset manifest");
    assert("prepare releases directory"@.len() == 26);
    assert("prepare shared directory"@.len() == 24);
    assert("create release directory"@.len() == 24);
    assert("extract archive"@.len() == 15);
    assert("sync shared assets"@.len() == 18);
    assert("switch current symlink"@.len() == 22);
    assert("cleanup old releases and shared assets"@.len() == 38);
    assert("cleanup old releases"@.len() == 20);
    assert("remove remote archive"@.len() == 21);
    assert("remove shared asset manifest"@.len() == 28);
}

/// The switch of `current` comes once the release is complete: after it is
/// unpacked and its assets are shared, and before old releases are cleaned
/// up and the uploads removed. No other step touches `current`; the steps
/// before the switch are exactly those whose failure removes the unfinished
/// release, and the steps after it are exactly the housekeeping ones.
pub proof fn lemma_switch_order(
    d: Seq<char>,
    tmp: Seq<char>,
    t: Seq<char>,
    archive: Seq<char>,
    hashes: Seq<char>,
    shared: bool,
    with_assets: bool,
    keep: nat,
)
    ensures
        ({
            let steps = deploy_steps_spec(d, tmp, t, archive, hashes, shared, with_assets, keep);
            let j = switch_index(shared, with_assets);
            &&& 0 <= j < steps.len()
            &&& steps[j] == ("switch current symlink"@, switch_current_spec(d, t))
            &&& forall|i: int|
                0 <= i < j ==> (#[trigger] steps[i]).0 != "switch current symlink"@ && !after_switch(
                    steps[i].0,
                )
            &&& forall|i: int| j < i < steps.len() ==> after_switch((#[trigger] steps[i]).0)
            &&& exists|i: int| 0 <= i < j && (#[trigger] steps[i]).0 == "extract archive"@
        }),
{
    lemma_step_labels();
    let steps = deploy_steps_spec(d, tmp, t, archive, hashes, shared, with_assets, keep);
    let a = if shared { 1int } else { 0 };
    let j = switch_index(shared, with_assets);
    assert(steps[2 + a].0 == "extract archive"@);
    assert forall|i: int| 0 <= i < j implies (#[trigger] steps[i]).0 != "switch current symlink"@
        && !after_switch(steps[i].0) by {}
    assert forall|i: int| j < i < steps.len() implies after_switch((#[trigger] steps[i]).0) by {}
}

proof fn lemma_labels_distinct()
    ensures
        "prepare releases directory"@ != "prepare shared directory"@,
        "prepare releases directory"@ != "create release directory"@,
        "prepare releases directory"@ != "extract archive"@,
        "prepare releases directory"@ != "sync shared assets"@,
        "prepare releases directory"@ != "switch current symlink"@,
        "prepare releases directory"@ != "cleanup old releases and shared assets"@,
        "prepare releases directory"@ != "cleanup old releases"@,
        "prepare releases directory"@ != "remove remote archive"@,
        "prepare releases directory"@ != "remove shared asset manifest"@,
        "prepare shared directory"@ != "create release directory"@,
        "prepare shared directory"@ != "extract archive"@,
        "prepare shared directory"@ != "sync shared assets"@,
        "prepare shared directory"@ != "switch current symlink"@,
        "prepare shared directory"@ != "cleanup old releases and shared assets"@,
        "prepare shared directory"@ != "cleanup old releases"@,
        "prepare shared directory"@ != "remove remote archive"@,
        "prepare shared directory"@ != "remove shared asset manifest"@,
        "create release directory"@ != "extract archive"@,
        "create release directory"@ != "sync shared assets"@,
        "create release directory"@ != "switch current symlink"@,
        "create release directory"@ != "cleanup old releases and shared assets"@,
        "create release directory"@ != "cleanup old releases"@,
        "create release directory"@ != "remove remote archive"@,
        "create release directory"@ != "remove shared asset manifest"@,
        "extract archive"@ != "sync shared assets"@,
        "extract archive"@ != "switch current symlink"@,
        "extract archive"@ != "cleanup old releases and shared assets"@,
        "extract archive"@ != "cleanup old releases"@,
        "extract archive"@ != "remove remote archive"@,
        "extract archive"@ != "remove shared asset manifest"@,
        "sync shared assets"@ != "switch current symlink"@,
        "sync shared assets"@ != "cleanup old releases and shared assets"@,
        "sync shared assets"@ != "cleanup old releases"@,
        "sync shared assets"@ != "remove remote archive"@,
        "sync shared assets"@ != "remove shared asset manifest"@,
        "switch current symlink"@ != "cleanup old releases and shared assets"@,
        "switch current symlink"@ != "cleanup old releases"@,
        "switch current symlink"@ != "remove remote archive"@,
        "switch current symlink"@ != "remove shared asset manifest"@,
        "cleanup old releases and shared assets"@ != "cleanup old releases"@,
        "cleanup old releases and shared assets"@ != "remove remote archive"@,
        "cleanup old releases and shared assets"@ != "remove shared asset manifest"@,
        "cleanup old releases"@ != "remove remote archive"@,
        "cleanup old releases"@ != "remove shared asset manifest"@,
        "remove remote archive"@ != "remove shared asset manifest"@,
{
    reveal_strlit("prepare releases directory");
    reveal_strlit("prepare shared directory");
    reveal_strlit("create release directory");
    reveal_strlit("extract archive");
    reveal_strlit("sync shared assets");
    reveal_strlit("switch current symlink");
    reveal_strlit("cleanup old releases and shared assets");
    reveal_strlit("cleanup old releases");
    reveal_strlit("remove remote archive");
    reveal_strlit("remove shared asset manifest");
    assert("prepare releases directory"@.len() == 26);
    assert("prepare shared directory"@.len() == 24);
    assert("create release directory"@.len() == 24);
    assert("extract archive"@.len() == 15);
    assert("sync shared assets"@.len() == 18);
    assert("switch current symlink"@.len() == 22);
    assert("cleanup old releases and shared assets"@.len() == 38);
    assert("cleanup old releases"@.len() == 20);
    assert("remove remote archive"@.len() == 21);
    assert("remove shared asset manifest"@.len() == 28);
    assert("prepare shared directory"@[0] != "create release directory"@[0]);
}

/// The steps that every deployment runs do not depend on sharing: whatever
/// `shared` and `with_assets` are, the step list holds these steps with
/// these very commands (each label once): make `releases/`, make
/// `releases/<t>`, unpack the archive there stripping its top directory,
/// point `current` at the release, and remove the uploaded archive.
pub proof fn lemma_common_steps(
    d: Seq<char>,
    tmp: Seq<char>,
    t: Seq<char>,
    archive: Seq<char>,
    hashes: Seq<char>,
    shared: bool,
    with_assets: bool,
    keep: nat,
)
    ensures
        ({
            let steps = deploy_steps_spec(d, tmp, t, archive, hashes, shared, with_assets, keep);
            let common = seq![
                ("prepare releases directory"@, "mkdir -p "@ + d + "/releases"@),
                ("create release directory"@, "cd "@ + d + "/releases"@ + " && mkdir -p "@ + t),
                ("extract archive"@, "cd "@ + d + "/releases"@ + " && tar -xzf "@ + archive + " -C "@
                    + t + " --strip-components=1"@),
                ("switch current symlink"@, "cd "@ + d + " && ln -sfn releases/"@ + t + " current"@),
                ("remove remote archive"@, "rm -f "@ + archive),
            ];
            forall|k: int|
                #![trigger common[k]]
                0 <= k < common.len() ==> (exists|i: int|
                    0 <= i < steps.len() && #[trigger] steps[i] == common[k]) && (forall|i: int|
                    0 <= i < steps.len() && (#[trigger] steps[i]).0 == common[k].0 ==> steps[i]
                        == common[k])
        }),
{
    lemma_labels_distinct();
    let steps = deploy_steps_spec(d, tmp, t, archive, hashes, shared, with_assets, keep);
    let common = seq![
        ("prepare releases directory"@, "mkdir -p "@ + d + "/releases"@),
        ("create release directory"@, "cd "@ + d + "/releases"@ + " && mkdir -p "@ + t),
        ("extract archive"@, "cd "@ + d + "/releases"@ + " && tar -xzf "@ + archive + " -C "@ + t
            + " --strip-components=1"@),
        ("switch current symlink"@, "cd "@ + d + " && ln -sfn releases/"@ + t + " current"@),
        ("remove remote archive"@, "rm -f "@ + archive),
    ];
    let a = if shared { 1int } else { 0 };
    let b = if shared && with_assets { 1int } else { 0 };
    assert(steps[0] == common[0]);
    assert(steps[1 + a] == common[1]);
    assert(steps[2 + a] == common[2]);
    assert(steps[3 + a + b] == common[3]);
    assert(steps[5 + a + b] == common[4]);
    assert forall|k: int| #![trigger common[k]] 0 <= k < common.len() implies (exists|i: int|
        0 <= i < steps.len() && #[trigger] steps[i] == common[k]) by {
        if k == 0 {
            assert(steps[0] == common[k]);
        } else if k == 1 {
            assert(steps[1 + a] == common[k]);
        } else if k == 2 {
            assert(steps[2 + a] == common[k]);
        } else if k == 3 {
            assert(steps[3 + a + b] == common[k]);
        } else {
            assert(steps[5 + a + b] == common[k]);
        }
    }
}

/// Unpacking a release does not depend on sharing: whatever `shared` and
/// `with_assets` are, the step "extract archive" unpacks the archive into
/// `releases/<t>` and strips its top directory, so the release root holds
/// the files of the dist directory.
pub proof fn lemma_extract_step(
    d: Seq<char>,
    tmp: Seq<char>,
    t: Seq<char>,
    archive: Seq<char>,
    hashes: Seq<char>,
    shared: bool,
    with_assets: bool,
    keep: nat,
)
    ensures
        ({
            let steps = deploy_steps_spec(d, tmp, t, archive, hashes, shared, with_assets, keep);
            let cmd = "cd "@ + d + "/releases"@ + " && tar -xzf "@ + archive + " -C "@ + t
                + " --strip-components=1"@;
            &&& exists|i: int| 0 <= i < steps.len() && #[trigger] steps[i] == ("extract archive"@, cmd)
            &&& forall|i: int|
                0 <= i < steps.len() && (#[trigger] steps[i]).0 == "extract archive"@ ==> steps[i].1
                    == cmd
        }),
{
    lemma_step_labels();
    lemma_extract_label();
    let steps = deploy_steps_spec(d, tmp, t, archive, hashes, shared, with_assets, keep);
    let a = if shared { 1int } else { 0 };
    assert(steps[2 + a].0 == "extract archive"@);
}

proof fn lemma_extract_label()
    ensures
        "prepare releases directory"@ != "extract archive"@,
        "prepare shared directory"@ != "extract archive"@,
        "create release directory"@ != "extract archive"@,
        "sync shared assets"@ != "extract archive"@,
        "switch current symlink"@ != "extract archive"@,
        "cleanup old releases and shared assets"@ != "extract archive"@,
        "cleanup old releases"@ != "extract archive"@,
        "remove remote archive"@ != "extract archive"@,
        "remove shared asset manifest"@ != "extract archive"@,
{
    reveal_strlit("prepare releases directory");
    reveal_strlit("prepare shared directory");
    reveal_strlit("create release directory");
    reveal_strlit("extract archive");
    reveal_strlit("sync shared assets");
    reveal_strlit("switch current symlink");
    reveal_strlit("cleanup old releases and shared assets");
    reveal_strlit("cleanup old releases");
    reveal_strlit("remove remote archive");
    reveal_strlit("remove shared asset manifest");
    assert("prepare releases directory"@.len() == 26);
    assert("prepare shared directory"@.len() == 24);
    assert("create release directory"@.len() == 24);
    assert("extract archive"@.len() == 15);
    assert("sync shared assets"@.len() == 18);
    assert("switch current symlink"@.len() == 22);
    assert("cleanup old releases and shared assets"@.len() == 38);
    assert("cleanup old releases"@.len() == 20);
    assert("remove remote archive"@.len() == 21);
    assert("remove shared asset manifest"@.len() == 28);
}

/// Where the switch of `current` stands among the steps.
pub open spec fn switch_index(shared: bool, with_assets: bool) -> int {
    3 + (if shared { 1int } else { 0 }) + (if shared && with_assets { 1int } else { 0 })
}

/// A log line: the time in brackets, the message, a line feed.
pub open spec fn log_line_spec(timestamp: Seq<char>, message: Seq<char>) -> Seq<char> {
    "["@ + timestamp + "] "@ + message + "\n"@
}

pub fn log_line(timestamp: &str, message: &str) -> (r: String)
    ensures
        r@ == log_line_spec(timestamp@, message@),
{
    let mut s = cat2("[", timestamp);
    s.append("] ");
    s.append(message);
    s.append("\n");
    s
}

/// A log line that may be blank: an empty message gives an empty line.
pub fn plain_log_line(timestamp: &str, message: &str) -> (r: String)
    ensures
        r@ == (if message@.len() == 0 {
            "\n"@
        } else {
            log_line_spec(timestamp@, message@)
        }),
{
    if message.is_empty() {
        "\n".to_string()
    } else {
        log_line(timestamp, message)
    }
}

/// The message logged before connecting for a rollback.
pub fn connecting_message(server: &ServerConfig) -> (r: String)
    ensures
        r@ == "Connecting to server "@ + server.host@ + ":"@ + decimal(server.port as nat),
{
    let mut s = cat2("Connecting to server ", server.host.as_str());
    s.append(":");
    push_decimal(&mut s, server.port as u64);
    s
}

/// What a failed build adds to the log: its error output when there is
/// some, else a hint when it wrote only to its standard output.
pub fn build_failure_notes(stderr_text: &str, stdout_empty: bool) -> (r: Vec<String>)
    ensures
        views(r@) == (if stderr_text@.len() > 0 {
            seq!["Build error: "@ + stderr_text@]
        } else if !stdout_empty {
            seq!["Build stdout suppressed; rerun the build command manually for full output"@]
        } else {
            Seq::<Seq<char>>::empty()
        }),
{
    let mut notes: Vec<String> = Vec::new();
    if !stderr_text.is_empty() {
        notes.push(cat2("Build error: ", stderr_text));
    } else if !stdout_empty {
        notes.push(
            "Build stdout suppressed; rerun the build command manually for full output".to_string(),
        );
    }
    assert(views(notes@) =~= (if stderr_text@.len() > 0 {
        seq!["Build error: "@ + stderr_text@]
    } else if !stdout_empty {
        seq!["Build stdout suppressed; rerun the build command manually for full output"@]
    } else {
        Seq::<Seq<char>>::empty()
    }));
    notes
}

/// The error of a build command that failed.
pub fn build_failed(cmd: &str) -> (r: AppError)
    ensures
        r.message() == "Build command failed: "@ + cmd@,
{
    AppError::Invalid(cat2("Build command failed: ", cmd))
}

} // verus!
