//! Container listing, selection and log-file naming for a foc-devnet run.
//!
//! The Docker commands themselves are run by the caller; this module decides
//! what their output means and what is done next.

use vstd::prelude::*;
use vstd::string::*;
use vstd::utf8::is_ascii_chars;
use crate::order::{compare_text, lemma_text_le_reflexive, lemma_text_le_total, lemma_text_le_transitive, text_le, SortKey};
use crate::text::{
    contains_text, lemma_single_line, lemma_split_three, lines_of, replace_colons, replaced, split_lines, split_on, split_on_char,
    string_views, text_contains, trim, trimmed,
};

verus! {

/// Information about a Docker container for logging and cleanup.
#[derive(Debug, Clone)]
pub struct ContainerInfo {
    pub name: String,
    pub image: String,
    pub status: String,
}

/// The texts a `ContainerInfo` holds.
pub struct ContainerInfoView {
    pub name: Seq<char>,
    pub image: Seq<char>,
    pub status: Seq<char>,
}

impl View for ContainerInfo {
    type V = ContainerInfoView;

    open spec fn view(&self) -> ContainerInfoView {
        ContainerInfoView { name: self.name@, image: self.image@, status: self.status@ }
    }
}

impl SortKey for ContainerInfo {
    /// Containers are ordered by name.
    open spec fn sort_le(self, other: Self) -> bool {
        text_le(self.name@, other.name@)
    }

    proof fn lemma_sort_le_total(a: Self, b: Self) {
        lemma_text_le_total(a.name@, b.name@);
    }

    proof fn lemma_sort_le_transitive(a: Self, b: Self, c: Self) {
        lemma_text_le_transitive(a.name@, b.name@, c.name@);
    }

    fn le(&self, other: &Self) -> (r: bool) {
        proof {
            lemma_text_le_reflexive(self.name@);
        }
        compare_text(self.name.as_str(), other.name.as_str()) <= 0
    }
}

/// The views of a sequence of containers.
pub open spec fn container_views(s: Seq<ContainerInfo>) -> Seq<ContainerInfoView> {
    s.map_values(|c: ContainerInfo| c@)
}

/// The container that one line of `docker ps --format
/// '{{.Names}}|{{.Image}}|{{.Status}}'` describes: a line with at least three
/// `|`-separated fields gives the first three, trimmed; other lines give none.
pub open spec fn container_from_line(line: Seq<char>) -> Option<ContainerInfoView> {
    let parts = split_on(line, '|');
    if parts.len() >= 3 {
        Some(
            ContainerInfoView {
                name: trimmed(parts[0]),
                image: trimmed(parts[1]),
                status: trimmed(parts[2]),
            },
        )
    } else {
        None
    }
}

/// The containers that the output of `docker ps -a --format
/// '{{.Names}}|{{.Image}}|{{.Status}}'` lists, in the order of its lines.
pub open spec fn containers_listed(output: Seq<char>) -> Seq<ContainerInfoView> {
    lines_of(output).filter_map(|line: Seq<char>| container_from_line(line))
}

/// A line in the format that `docker ps` is asked for reads back as the
/// container it describes, when no field holds a `|` or a line break and no
/// field starts or ends with white space.
pub proof fn lemma_listing_reads_back(name: Seq<char>, image: Seq<char>, status: Seq<char>)
    requires
        !name.contains('|') && !image.contains('|') && !status.contains('|'),
        !name.contains('\n') && !image.contains('\n') && !status.contains('\n'),
        trimmed(name) == name && trimmed(image) == image && trimmed(status) == status,
    ensures
        containers_listed(name + seq!['|'] + image + seq!['|'] + status) == seq![
            ContainerInfoView { name, image, status },
        ],
{
    let line = name + seq!['|'] + image + seq!['|'] + status;
    assert(!line.contains('\n')) by {
        if line.contains('\n') {
            let t = choose|t: int| 0 <= t < line.len() && line[t] == '\n';
            if t < name.len() {
                assert(name[t] == '\n');
            } else if t == name.len() {
            } else if t < name.len() + 1 + image.len() {
                assert(image[t - name.len() - 1] == '\n');
            } else if t == name.len() + 1 + image.len() {
            } else {
                assert(status[t - name.len() - 2 - image.len()] == '\n');
            }
        }
    }
    lemma_single_line(line);
    lemma_split_three(name, image, status, '|');
    let f = |l: Seq<char>| container_from_line(l);
    let parts = split_on(line, '|');
    assert(parts == seq![name, image, status]);
    assert(parts[0] == name && parts[1] == image && parts[2] == status);
    assert(container_from_line(line) == Some(ContainerInfoView { name, image, status }));
    Seq::lemma_filter_map_singleton(line, f);
}

/// Reads all containers (running or stopped) from the output of
/// `docker ps -a --format '{{.Names}}|{{.Image}}|{{.Status}}'`.
pub fn list_all_containers(docker_ps_output: &str) -> (containers: Vec<ContainerInfo>)
    ensures
        container_views(containers@) == containers_listed(docker_ps_output@),
{
    let lines = split_lines(docker_ps_output);
    let ghost all_lines = lines_of(docker_ps_output@);
    let ghost f = |line: Seq<char>| container_from_line(line);
    let mut containers: Vec<ContainerInfo> = Vec::new();
    let mut k: usize = 0;
    proof {
        assert(all_lines.take(0) =~= Seq::<Seq<char>>::empty());
        assert(container_views(containers@) =~= all_lines.take(0).filter_map(f));
    }
    while k < lines.len()
        invariant
            string_views(lines@) == all_lines,
            k <= lines.len(),
            f == (|line: Seq<char>| container_from_line(line)),
            container_views(containers@) == all_lines.take(k as int).filter_map(f),
        decreases lines.len() - k,
    {
        let line = lines[k].as_str();
        assert(line@ == all_lines[k as int]);
        let parts = split_on_char(line, '|');
        proof {
            all_lines.lemma_filter_map_take_succ(f, k as int);
        }
        if parts.len() >= 3 {
            let c = ContainerInfo {
                name: trim(parts[0].as_str()),
                image: trim(parts[1].as_str()),
                status: trim(parts[2].as_str()),
            };
            proof {
                assert(parts@[0]@ == split_on(line@, '|')[0]);
                assert(parts@[1]@ == split_on(line@, '|')[1]);
                assert(parts@[2]@ == split_on(line@, '|')[2]);
                assert(container_views(containers@.push(c)) =~= container_views(containers@).push(
                    c@,
                ));
            }
            containers.push(c);
        }
        k += 1;
    }
    proof {
        assert(all_lines.take(lines.len() as int) =~= all_lines);
    }
    containers
}

/// `s` with the items whose flag in `keep` is set, in their order.
pub open spec fn select_kept<T>(s: Seq<T>, keep: Seq<bool>) -> Seq<T>
    decreases s.len(),
{
    if s.len() == 0 {
        Seq::empty()
    } else {
        let rest = select_kept(s.drop_last(), keep.take(s.len() - 1));
        if keep[s.len() - 1] {
            rest.push(s.last())
        } else {
            rest
        }
    }
}

/// Keeps the containers that belong to foc-devnet, in their order. Whether a
/// container belongs is decided by `belongs` (in foc-devnet: its image is a
/// foc-devnet image, or its name is that of a per-SP database container).
pub fn list_foc_devnet_containers<F: Fn(&ContainerInfo) -> bool>(
    containers: Vec<ContainerInfo>,
    belongs: F,
) -> (kept: Vec<ContainerInfo>)
    requires
        forall|c: &ContainerInfo| #[trigger] belongs.requires((c,)),
    ensures
        exists|keep: Seq<bool>|
            {
                &&& keep.len() == containers@.len()
                &&& forall|i: int|
                    0 <= i < keep.len() ==> belongs.ensures((&containers@[i],), #[trigger] keep[i])
                &&& kept@ == select_kept(containers@, keep)
            },
{
    let ghost orig = containers@;
    let mut rest = containers;
    let mut kept: Vec<ContainerInfo> = Vec::new();
    let ghost mut keep: Seq<bool> = Seq::empty();
    let mut k: usize = 0;
    let n = rest.len();
    proof {
        assert(orig.take(0) =~= Seq::<ContainerInfo>::empty());
        assert(orig.skip(0) =~= orig);
    }
    while k < n
        invariant
            n == orig.len(),
            k <= n,
            forall|c: &ContainerInfo| #[trigger] belongs.requires((c,)),
            rest@ == orig.skip(k as int),
            keep.len() == k,
            forall|i: int| 0 <= i < k ==> belongs.ensures((&orig[i],), #[trigger] keep[i]),
            kept@ == select_kept(orig.take(k as int), keep),
        decreases n - k,
    {
        let c = rest.remove(0);
        assert(c == orig[k as int]);
        let b = belongs(&c);
        proof {
            let prev = orig.take(k as int);
            let next = orig.take(k + 1);
            assert(next.drop_last() =~= prev);
            assert(next.last() == c);
            assert(keep.push(b).take(k as int) =~= keep);
            keep = keep.push(b);
            assert(rest@ =~= orig.skip(k + 1));
        }
        if b {
            kept.push(c);
        }
        k += 1;
    }
    proof {
        assert(orig.take(n as int) =~= orig);
    }
    kept
}

/// The lowercase form of a text, as `str::to_lowercase` gives it (Unicode
/// lowercase mapping, including its multi-character mappings).
pub uninterp spec fn unicode_lowercase(s: Seq<char>) -> Seq<char>;

/// The ASCII lowercase form of a text: `A`-`Z` become `a`-`z`, every other
/// character stays.
pub open spec fn ascii_lowercase(s: Seq<char>) -> Seq<char> {
    s.map_values(
        |c: char|
            if 'A' <= c && c <= 'Z' {
                ((c as u32) + 32) as char
            } else {
                c
            },
    )
}

/// Calls `str::to_lowercase`. Its result depends on the text alone; it is
/// named `unicode_lowercase` of the text. Of the Unicode lowercase mapping
/// only its ASCII part is claimed: an ASCII text is lowercased letter by
/// letter. Nothing is claimed of other characters.
#[verifier::external_body]
fn to_lowercase(s: &str) -> (r: String)
    ensures
        r@ == unicode_lowercase(s@),
        is_ascii_chars(s@) ==> r@ == ascii_lowercase(s@),
{
    s.to_lowercase()
}

/// A lowercase status text that mentions "exited", "dead", "created",
/// "removing" or "paused".
pub open spec fn mentions_stopped_state(lower: Seq<char>) -> bool {
    contains_text(lower, "exited"@) || contains_text(lower, "dead"@) || contains_text(
        lower,
        "created"@,
    ) || contains_text(lower, "removing"@) || contains_text(lower, "paused"@)
}

/// A container status that counts as not running: its lowercase form
/// mentions a stopped state.
pub open spec fn is_dead_status(status: Seq<char>) -> bool {
    mentions_stopped_state(unicode_lowercase(status))
}

/// Decides `mentions_stopped_state` of a status already in lowercase.
pub fn lowercase_status_is_dead(lower: &str) -> (r: bool)
    ensures
        r == mentions_stopped_state(lower@),
        r <==> (contains_text(lower@, "exited"@) || contains_text(lower@, "dead"@) || contains_text(
            lower@,
            "created"@,
        ) || contains_text(lower@, "removing"@) || contains_text(lower@, "paused"@)),
{
    text_contains(lower, "exited") || text_contains(lower, "dead") || text_contains(
        lower,
        "created",
    ) || text_contains(lower, "removing") || text_contains(lower, "paused")
}

/// Decides `is_dead_status`; for an ASCII status, the lowercase form is the
/// ASCII one.
pub fn status_is_dead(status: &str) -> (r: bool)
    ensures
        r == is_dead_status(status@),
        is_ascii_chars(status@) ==> r == mentions_stopped_state(ascii_lowercase(status@)),
        ({
            let lower = unicode_lowercase(status@);
            r <==> (contains_text(lower, "exited"@) || contains_text(lower, "dead"@) || contains_text(
                lower,
                "created"@,
            ) || contains_text(lower, "removing"@) || contains_text(lower, "paused"@))
        }),
        ({
            let lower = ascii_lowercase(status@);
            is_ascii_chars(status@) ==> (r <==> (contains_text(lower, "exited"@) || contains_text(
                lower,
                "dead"@,
            ) || contains_text(lower, "created"@) || contains_text(lower, "removing"@)
                || contains_text(lower, "paused"@)))
        }),
{
    let lower = to_lowercase(status);
    lowercase_status_is_dead(lower.as_str())
}

/// The foc-devnet containers that the cleanup after a start removes: those
/// whose status says they are not running, in their order.
pub fn remove_dead_foc_containers(containers: Vec<ContainerInfo>) -> (dead: Vec<ContainerInfo>)
    ensures
        dead@ == containers@.filter(|c: ContainerInfo| is_dead_status(c.status@)),
        forall|i: int| 0 <= i < dead@.len() ==> {
            let lower = unicode_lowercase(#[trigger] dead@[i].status@);
            contains_text(lower, "exited"@) || contains_text(lower, "dead"@) || contains_text(
                lower,
                "created"@,
            ) || contains_text(lower, "removing"@) || contains_text(lower, "paused"@)
        },
        forall|i: int| 0 <= i < containers@.len() ==> {
            let lower = unicode_lowercase(#[trigger] containers@[i].status@);
            (contains_text(lower, "exited"@) || contains_text(lower, "dead"@) || contains_text(
                lower,
                "created"@,
            ) || contains_text(lower, "removing"@) || contains_text(lower, "paused"@))
                <==> dead@.contains(containers@[i])
        },
{
    let ghost orig = containers@;
    let ghost pred = |c: ContainerInfo| is_dead_status(c.status@);
    let mut rest = containers;
    let mut dead: Vec<ContainerInfo> = Vec::new();
    let mut k: usize = 0;
    let n = rest.len();
    proof {
        assert(orig.take(0) =~= Seq::<ContainerInfo>::empty());
        assert(orig.skip(0) =~= orig);
    }
    while k < n
        invariant
            n == orig.len(),
            k <= n,
            pred == (|c: ContainerInfo| is_dead_status(c.status@)),
            rest@ == orig.skip(k as int),
            dead@ == orig.take(k as int).filter(pred),
        decreases n - k,
    {
        let c = rest.remove(0);
        assert(c == orig[k as int]);
        let is_dead = status_is_dead(c.status.as_str());
        proof {
            assert(orig.take(k + 1) =~= orig.take(k as int).push(c));
            orig.take(k as int).lemma_filter_push(c, pred);
            assert(rest@ =~= orig.skip(k + 1));
        }
        if is_dead {
            dead.push(c);
        }
        k += 1;
    }
    proof {
        assert(orig.take(n as int) =~= orig);
        broadcast use vstd::seq_lib::group_filter_ensures;
        assert forall|i: int| 0 <= i < orig.len() implies (is_dead_status(#[trigger] orig[i].status@)
            <==> dead@.contains(orig[i])) by {
            if dead@.contains(orig[i]) {
                let j = choose|j: int| 0 <= j < dead@.len() && dead@[j] == orig[i];
                assert(pred(dead@[j]));
            }
        }
    }
    dead
}

/// Appends the text of `s` to `acc`.
fn push_text(acc: &mut String, s: &str)
    ensures
        final(acc)@ == old(acc)@ + s@,
{
    acc.append(s);
}

/// The name of the file that keeps a container's logs:
/// `<container_name>.<image with ':' replaced by '_'>.docker.log`.
pub fn container_log_file_name(container_name: &str, image: &str) -> (r: String)
    ensures
        r@ == container_name@ + "."@ + replaced(image@, ':', '_') + ".docker.log"@,
{
    let mut r = String::from_str(container_name);
    push_text(&mut r, ".");
    let safe_image = replace_colons(image);
    push_text(&mut r, safe_image.as_str());
    push_text(&mut r, ".docker.log");
    r
}

/// What is kept in place of a container's logs when they cannot be captured.
pub fn log_capture_failure(container_name: &str, error: &str) -> (r: String)
    ensures
        r@ == "Failed to get logs for container '"@ + container_name@ + "': "@ + error@ + "\n"@,
{
    let mut r = String::from_str("Failed to get logs for container '");
    push_text(&mut r, container_name);
    push_text(&mut r, "': ");
    push_text(&mut r, error);
    push_text(&mut r, "\n");
    r
}

/// The content of the post-start status log: the output of `foc-devnet
/// status`, followed, when that command failed, by a marker line and its error
/// output.
pub fn post_start_status_log_content(stdout: &str, succeeded: bool, stderr: &str) -> (r: String)
    ensures
        r@ == (if succeeded {
            stdout@
        } else {
            stdout@ + "\n[status command failed]\n"@ + stderr@
        }),
{
    let mut r = String::from_str(stdout);
    if !succeeded {
        push_text(&mut r, "\n[status command failed]\n");
        push_text(&mut r, stderr);
    }
    r
}

} // verus!
