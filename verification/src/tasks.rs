//! Download tasks derived from record keys and document indexes by a
//! vendor's URL and path templates.

use crate::downloader::{DownloadTask, TaskView};
use crate::store::RecordStore;
use crate::table::Table;
use vstd::prelude::*;
use vstd::string::*;

verus! {

/// Where a vendor serves its documents and where they are kept: a key
/// is put between the prefix and the suffix of each side.
#[derive(Debug)]
pub struct PathTemplate {
    pub url_prefix: String,
    pub url_suffix: String,
    pub dest_prefix: String,
    pub dest_suffix: String,
}

/// A template as contracts see it.
pub struct TemplateView {
    pub url_prefix: Seq<char>,
    pub url_suffix: Seq<char>,
    pub dest_prefix: Seq<char>,
    pub dest_suffix: Seq<char>,
}

impl View for PathTemplate {
    type V = TemplateView;

    open spec fn view(&self) -> TemplateView {
        TemplateView {
            url_prefix: self.url_prefix@,
            url_suffix: self.url_suffix@,
            dest_prefix: self.dest_prefix@,
            dest_suffix: self.dest_suffix@,
        }
    }
}

/// A file name made from a title: every path separator replaced by an
/// underscore.
pub open spec fn sanitized(title: Seq<char>) -> Seq<char> {
    title.map_values(
        |c: char|
            if c == '/' {
                '_'
            } else {
                c
            },
    )
}

/// The task that fetches the datasheet of the part `key`.
pub open spec fn datasheet_task_of(t: TemplateView, key: Seq<char>) -> TaskView {
    TaskView { url: t.url_prefix + key + t.url_suffix, dest: t.dest_prefix + key + t.dest_suffix }
}

/// The task that fetches the document served at `path` and keeps it
/// under its sanitized `title`.
pub open spec fn techdoc_task_of(t: TemplateView, title: Seq<char>, path: Seq<char>) -> TaskView {
    TaskView {
        url: t.url_prefix + path + t.url_suffix,
        dest: t.dest_prefix + sanitized(title) + t.dest_suffix,
    }
}

/// `a`, `b` and `c` joined.
pub fn join3(a: &str, b: &str, c: &str) -> (r: String)
    ensures
        r@ == a@ + b@ + c@,
{
    let mut r = String::from_str(a);
    r.append(b);
    r.append(c);
    r
}

/// The title with every path separator replaced by an underscore.
pub fn sanitize(title: &str) -> (r: String)
    ensures
        r@ == sanitized(title@),
{
    let n = title.unicode_len();
    let mut r = String::new();
    let mut i: usize = 0;
    while i < n
        invariant
            n == title@.len(),
            i <= n,
            r@ == sanitized(title@.subrange(0, i as int)),
        decreases n - i,
    {
        let c = title.get_char(i);
        if c == '/' {
            proof {
                reveal_strlit("_");
            }
            r.append("_");
        } else {
            r.append(title.substring_char(i, i + 1));
        }
        proof {
            assert(r@ =~= sanitized(title@.subrange(0, i + 1)));
        }
        i += 1;
    }
    proof {
        assert(title@.subrange(0, n as int) =~= title@);
    }
    r
}

/// The task that fetches the datasheet of the part `key`.
pub fn datasheet_task(template: &PathTemplate, key: &str) -> (t: DownloadTask)
    ensures
        t@ == datasheet_task_of(template@, key@),
{
    DownloadTask {
        url: join3(template.url_prefix.as_str(), key, template.url_suffix.as_str()),
        dest: join3(template.dest_prefix.as_str(), key, template.dest_suffix.as_str()),
    }
}

/// The task that fetches the document served at `path` and keeps it
/// under its sanitized `title`.
pub fn techdoc_task(template: &PathTemplate, title: &str, path: &str) -> (t: DownloadTask)
    ensures
        t@ == techdoc_task_of(template@, title@, path@),
{
    let name = sanitize(title);
    DownloadTask {
        url: join3(template.url_prefix.as_str(), path, template.url_suffix.as_str()),
        dest: join3(template.dest_prefix.as_str(), name.as_str(), template.dest_suffix.as_str()),
    }
}

/// One datasheet task per key of the store, in the store's order.
pub fn store_tasks(store: &RecordStore, template: &PathTemplate) -> (tasks: Vec<DownloadTask>)
    requires
        store.wf(),
    ensures
        tasks@.len() == store.key_seq().len(),
        forall|i: int|
            0 <= i < tasks@.len() ==> (#[trigger] tasks@[i])@ == datasheet_task_of(
                template@,
                store.key_seq()[i],
            ),
{
    let n = store.len();
    let mut tasks: Vec<DownloadTask> = Vec::new();
    let mut i: usize = 0;
    while i < n
        invariant
            store.wf(),
            n == store.key_seq().len(),
            i <= n,
            tasks@.len() == i,
            forall|j: int|
                0 <= j < i ==> (#[trigger] tasks@[j])@ == datasheet_task_of(
                    template@,
                    store.key_seq()[j],
                ),
        decreases n - i,
    {
        tasks.push(datasheet_task(template, store.key_at(i).as_str()));
        i += 1;
    }
    tasks
}

/// One document task per entry of an index from title to path, in the
/// index's order.
pub fn index_tasks(index: &Table<String>, template: &PathTemplate) -> (tasks: Vec<DownloadTask>)
    requires
        index.wf(),
    ensures
        tasks@.len() == index.key_seq().len(),
        forall|i: int|
            0 <= i < tasks@.len() ==> (#[trigger] tasks@[i])@ == techdoc_task_of(
                template@,
                index.key_seq()[i],
                index@[index.key_seq()[i]]@,
            ),
{
    let n = index.len();
    let mut tasks: Vec<DownloadTask> = Vec::new();
    let mut i: usize = 0;
    while i < n
        invariant
            index.wf(),
            n == index.key_seq().len(),
            i <= n,
            tasks@.len() == i,
            forall|j: int|
                0 <= j < i ==> (#[trigger] tasks@[j])@ == techdoc_task_of(
                    template@,
                    index.key_seq()[j],
                    index@[index.key_seq()[j]]@,
                ),
        decreases n - i,
    {
        let title = index.key_at(i);
        let path = index.value_at(i);
        tasks.push(techdoc_task(template, title.as_str(), path.as_str()));
        i += 1;
    }
    tasks
}

/// Two keys that give the same datasheet task are the same key: the
/// destinations of distinct keys never collide.
pub proof fn lemma_datasheet_dest_injective(t: TemplateView, a: Seq<char>, b: Seq<char>)
    requires
        datasheet_task_of(t, a).dest == datasheet_task_of(t, b).dest,
    ensures
        a == b,
{
    let da = t.dest_prefix + a + t.dest_suffix;
    let db = t.dest_prefix + b + t.dest_suffix;
    assert(da.len() == db.len());
    assert(a.len() == b.len());
    assert forall|i: int| 0 <= i < a.len() implies a[i] == b[i] by {
        assert(da[t.dest_prefix.len() + i] == a[i]);
        assert(db[t.dest_prefix.len() + i] == b[i]);
    }
    assert(a =~= b);
}

} // verus!
