//! The vendors' tables: which links of a menu count, where the catalog's
//! data and documents are served, and where documents are kept.

use crate::downloader::{DownloadTask, TaskView};
use crate::links::{LinkRule, RuleView};
use crate::table::Table;
use crate::tasks::{datasheet_task_of, join3, techdoc_task, techdoc_task_of, PathTemplate, TemplateView};
use crate::text::{contains, has_prefix, occurs, replace_all, replaced, starts_with, trim, trimmed};
use vstd::prelude::*;
use vstd::string::*;

verus! {

/// The most requests that TI's site is sent at once.
pub const TI_CEILING: usize = 3;

/// The most requests that ST's site is sent at once.
pub const ST_CEILING: usize = 8;

/// The field of a TI record that holds its part number, the primary key.
pub fn ti_key_field() -> (field: String)
    ensures
        field@ == "o1"@,
{
    String::from_str("o1")
}

/// The rule for the category links of TI's menu.
pub open spec fn ti_menu() -> RuleView {
    RuleView {
        prefix: "//"@,
        suffix: "overview.html"@,
        excluded: seq!["/applications/"@],
        base: "http:"@,
    }
}

/// The rule for the category links of ST's menu.
pub open spec fn st_menu() -> RuleView {
    RuleView {
        prefix: "/en/"@,
        suffix: ""@,
        excluded: seq![
            "/applications/"@,
            "/development-tools/"@,
            "/embedded-software/"@,
            "/evaluation-tools/"@,
        ],
        base: "https://www.st.com"@,
    }
}

/// The rule for the product links of NXP's front page.
pub open spec fn nxp_menu() -> RuleView {
    RuleView { prefix: "/products/"@, suffix: ""@, excluded: seq!["?"@], base: ""@ }
}

/// The rule for the category links of TI's menu.
pub fn ti_menu_rule() -> (r: LinkRule)
    ensures
        r@ == ti_menu(),
{
    let mut excluded: Vec<String> = Vec::new();
    excluded.push(String::from_str("/applications/"));
    let r = LinkRule {
        prefix: String::from_str("//"),
        suffix: String::from_str("overview.html"),
        excluded,
        base: String::from_str("http:"),
    };
    proof {
        assert(r@.excluded =~= ti_menu().excluded);
    }
    r
}

/// The rule for the category links of ST's menu.
pub fn st_menu_rule() -> (r: LinkRule)
    ensures
        r@ == st_menu(),
{
    let mut excluded: Vec<String> = Vec::new();
    excluded.push(String::from_str("/applications/"));
    excluded.push(String::from_str("/development-tools/"));
    excluded.push(String::from_str("/embedded-software/"));
    excluded.push(String::from_str("/evaluation-tools/"));
    let r = LinkRule {
        prefix: String::from_str("/en/"),
        suffix: String::from_str(""),
        excluded,
        base: String::from_str("https://www.st.com"),
    };
    proof {
        assert(r@.excluded =~= st_menu().excluded);
    }
    r
}

/// The rule for the product links of NXP's front page.
pub fn nxp_menu_rule() -> (r: LinkRule)
    ensures
        r@ == nxp_menu(),
{
    let mut excluded: Vec<String> = Vec::new();
    excluded.push(String::from_str("?"));
    let r = LinkRule {
        prefix: String::from_str("/products/"),
        suffix: String::from_str(""),
        excluded,
        base: String::from_str(""),
    };
    proof {
        assert(r@.excluded =~= nxp_menu().excluded);
    }
    r
}

/// Where TI serves the datasheet of a part and where it is kept.
pub open spec fn ti_datasheets() -> TemplateView {
    TemplateView {
        url_prefix: "https://www.ti.com/lit/gpn/"@,
        url_suffix: ""@,
        dest_prefix: "pdf/ti/gpn/"@,
        dest_suffix: ".pdf"@,
    }
}

/// Where ST serves the datasheet of a part and where it is kept.
pub open spec fn st_datasheets() -> TemplateView {
    TemplateView {
        url_prefix: "https://www.st.com/resource/en/datasheet/"@,
        url_suffix: ".pdf"@,
        dest_prefix: "pdf/st/datasheets/"@,
        dest_suffix: ".pdf"@,
    }
}

/// Where TI serves a technical document and where it is kept.
pub open spec fn ti_techdocs() -> TemplateView {
    TemplateView {
        url_prefix: "https://www.ti.com"@,
        url_suffix: ""@,
        dest_prefix: "pdf/ti/lit/"@,
        dest_suffix: ".pdf"@,
    }
}

/// Where ST serves a technical document and where it is kept.
pub open spec fn st_techdocs() -> TemplateView {
    TemplateView {
        url_prefix: "https://www.st.com"@,
        url_suffix: ""@,
        dest_prefix: "pdf/st/techdocs/"@,
        dest_suffix: ".pdf"@,
    }
}

/// Where TI serves the datasheet of a part and where it is kept.
pub fn ti_datasheet_template() -> (t: PathTemplate)
    ensures
        t@ == ti_datasheets(),
{
    PathTemplate {
        url_prefix: String::from_str("https://www.ti.com/lit/gpn/"),
        url_suffix: String::from_str(""),
        dest_prefix: String::from_str("pdf/ti/gpn/"),
        dest_suffix: String::from_str(".pdf"),
    }
}

/// Where ST serves the datasheet of a part and where it is kept.
pub fn st_datasheet_template() -> (t: PathTemplate)
    ensures
        t@ == st_datasheets(),
{
    PathTemplate {
        url_prefix: String::from_str("https://www.st.com/resource/en/datasheet/"),
        url_suffix: String::from_str(".pdf"),
        dest_prefix: String::from_str("pdf/st/datasheets/"),
        dest_suffix: String::from_str(".pdf"),
    }
}

/// Where TI serves a technical document and where it is kept.
pub fn ti_techdoc_template() -> (t: PathTemplate)
    ensures
        t@ == ti_techdocs(),
{
    PathTemplate {
        url_prefix: String::from_str("https://www.ti.com"),
        url_suffix: String::from_str(""),
        dest_prefix: String::from_str("pdf/ti/lit/"),
        dest_suffix: String::from_str(".pdf"),
    }
}

/// Where ST serves a technical document and where it is kept.
pub fn st_techdoc_template() -> (t: PathTemplate)
    ensures
        t@ == st_techdocs(),
{
    PathTemplate {
        url_prefix: String::from_str("https://www.st.com"),
        url_suffix: String::from_str(""),
        dest_prefix: String::from_str("pdf/st/techdocs/"),
        dest_suffix: String::from_str(".pdf"),
    }
}

/// The address of the selection criteria of the TI family `id`.
pub fn ti_criteria_url(id: &str) -> (url: String)
    ensures
        url@ == "https://www.ti.com/selectiontool/paramdata/family/"@ + id@
            + "/criteria?lang=en&output=json"@,
{
    join3("https://www.ti.com/selectiontool/paramdata/family/", id, "/criteria?lang=en&output=json")
}

/// The address of the records of the TI family `id`.
pub fn ti_results_url(id: &str) -> (url: String)
    ensures
        url@ == "https://www.ti.com/selectiontool/paramdata/family/"@ + id@
            + "/results?lang=en&output=json"@,
{
    join3("https://www.ti.com/selectiontool/paramdata/family/", id, "/results?lang=en&output=json")
}

/// The address of the product page of the TI part `part`.
pub fn ti_product_url(part: &str) -> (url: String)
    ensures
        url@ == "https://www.ti.com/product/"@ + part@,
{
    proof {
        reveal_strlit("");
        assert("https://www.ti.com/product/"@ + part@ + ""@ =~= "https://www.ti.com/product/"@
            + part@);
    }
    join3("https://www.ti.com/product/", part, "")
}

/// The products page that belongs to a TI category overview.
pub fn ti_products_page(overview: &str) -> (url: String)
    ensures
        url@ == replaced(overview@, "overview.html"@, "products.html"@),
{
    replace_all(overview, "overview.html", "products.html")
}

/// The address of what ST serves at `path`.
pub fn st_url(path: &str) -> (url: String)
    ensures
        url@ == "https://www.st.com"@ + path@,
{
    proof {
        reveal_strlit("");
        assert("https://www.st.com"@ + path@ + ""@ =~= "https://www.st.com"@ + path@);
    }
    join3("https://www.st.com", path, "")
}

/// The file in which the ST data page `id` is kept.
pub fn st_page_file(id: &str) -> (file: String)
    ensures
        file@ == "json/st/datapages/"@ + id@ + ".json"@,
{
    join3("json/st/datapages/", id, ".json")
}

/// The address of the data page `id` of the ST category page `page`.
pub fn st_data_page(page: &str, id: &str) -> (url: String)
    ensures
        url@ == replaced(page@, ".html"@, ""@) + ".cxst-ps-grid.html/"@ + id@ + ".json"@,
{
    let stem = replace_all(page, ".html", "");
    let mut url = join3(stem.as_str(), ".cxst-ps-grid.html/", id);
    url.append(".json");
    url
}

/// A category's label as its page's heading gives it: the heading
/// without the words " - Products", with a hyphen or an en dash, and
/// without white space around it.
pub open spec fn category_label(heading: Seq<char>) -> Seq<char> {
    trimmed(replaced(replaced(heading, " \u{2013} Products"@, ""@), " - Products"@, ""@))
}

/// A category's label as its page's heading gives it.
pub fn clean_category(heading: &str) -> (label: String)
    ensures
        label@ == category_label(heading@),
{
    let a = replace_all(heading, " \u{2013} Products", "");
    let b = replace_all(a.as_str(), " - Products", "");
    trim(b.as_str())
}

/// One cell of a product row: a column and the value in it.
#[derive(Debug)]
pub struct Cell {
    pub column: String,
    pub value: String,
}

/// The column that holds a product's part number.
pub open spec fn part_column() -> Seq<char> {
    "1"@
}

/// The part number of a product row: the value of its first cell in the
/// part-number column, where there is such a cell and its value is not
/// empty.
pub open spec fn part_number_of(cells: Seq<Cell>) -> Option<Seq<char>>
    decreases cells.len(),
{
    if cells.len() == 0 {
        None
    } else if cells[0].column@ == part_column() {
        if cells[0].value@.len() == 0 {
            None
        } else {
            Some(cells[0].value@)
        }
    } else {
        part_number_of(cells.drop_first())
    }
}

/// The part number of a product row, if it has one.
pub fn part_number(cells: &Vec<Cell>) -> (r: Option<&String>)
    ensures
        match r {
            Some(pn) => part_number_of(cells@) == Some(pn@),
            None => part_number_of(cells@).is_none(),
        },
{
    let column = String::from_str("1");
    let n = cells.len();
    let mut i: usize = 0;
    proof {
        assert(cells@.skip(0) =~= cells@);
    }
    while i < n
        invariant
            n == cells@.len(),
            i <= n,
            column@ == part_column(),
            part_number_of(cells@.skip(i as int)) == part_number_of(cells@),
        decreases n - i,
    {
        proof {
            assert(cells@.skip(i as int).drop_first() =~= cells@.skip(i + 1));
        }
        if cells[i].column == column {
            if cells[i].value.as_str().unicode_len() == 0 {
                return None;
            }
            return Some(&cells[i].value);
        }
        i += 1;
    }
    None
}

/// Whether a link of an ST product page goes into the index of
/// technical documents: it has a title and is no datasheet.
pub open spec fn st_doc_counts(title: Seq<char>, href: Seq<char>) -> bool {
    title.len() > 0 && !occurs(href, "/datasheet/"@)
}

/// Notes a link of an ST product page in the index of technical
/// documents, from title to path, where it counts; a title noted before
/// gets the new path. Tells whether it counted.
pub fn note_st_doc(index: &mut Table<String>, title: &str, href: &str) -> (noted: bool)
    requires
        old(index).wf(),
    ensures
        final(index).wf(),
        noted == st_doc_counts(title@, href@),
        noted ==> final(index)@.dom() == old(index)@.dom().insert(trimmed(title@)),
        noted ==> final(index)@[trimmed(title@)]@ == trimmed(href@),
        noted ==> forall|k: Seq<char>|
            k != trimmed(title@) && old(index)@.contains_key(k) ==> final(index)@[k] == old(index)@[k],
        noted ==> final(index).key_seq() == if old(index)@.contains_key(trimmed(title@)) {
            old(index).key_seq()
        } else {
            old(index).key_seq().push(trimmed(title@))
        },
        !noted ==> *final(index) == *old(index),
{
    if title.unicode_len() == 0 || contains(href, "/datasheet/") {
        return false;
    }
    let key = trim(title);
    let value = trim(href);
    index.insert(key, value);
    true
}

/// Whether a link of a TI product page goes into the index of technical
/// documents: its navigation title does not call it a datasheet.
pub open spec fn ti_doc_counts(nav_title: Seq<char>) -> bool {
    !occurs(nav_title, "Datasheet"@) && !occurs(nav_title, "Data sheet"@)
}

/// Whether a link of a TI product page goes into the index of technical
/// documents.
pub fn ti_doc_is_counted(nav_title: &str) -> (r: bool)
    ensures
        r == ti_doc_counts(nav_title@),
{
    !contains(nav_title, "Datasheet") && !contains(nav_title, "Data sheet")
}

/// Whether a path of TI's index is a document of its literature.
pub open spec fn is_lit_pdf(path: Seq<char>) -> bool {
    has_prefix(path, "/lit/pdf"@)
}

/// The task for a document of TI's literature: served at its path and
/// kept under the path without the literature directory.
pub open spec fn lit_task_of(path: Seq<char>) -> TaskView {
    techdoc_task_of(ti_techdocs(), replaced(path, "/lit/pdf/"@, ""@), path)
}

/// The tasks for the literature documents among `paths`, in order.
pub open spec fn lit_tasks_of(paths: Seq<Seq<char>>) -> Seq<TaskView>
    decreases paths.len(),
{
    if paths.len() == 0 {
        Seq::empty()
    } else if is_lit_pdf(paths.last()) {
        lit_tasks_of(paths.drop_last()).push(lit_task_of(paths.last()))
    } else {
        lit_tasks_of(paths.drop_last())
    }
}

/// The views of a sequence of tasks.
pub open spec fn task_views(tasks: Seq<DownloadTask>) -> Seq<TaskView> {
    tasks.map_values(|t: DownloadTask| t@)
}

/// One task for each literature document of TI's index of technical
/// documents, which goes from path to title.
pub fn lit_tasks(index: &Table<String>) -> (tasks: Vec<DownloadTask>)
    requires
        index.wf(),
    ensures
        task_views(tasks@) == lit_tasks_of(index.key_seq()),
{
    let template = ti_techdoc_template();
    let n = index.len();
    let mut tasks: Vec<DownloadTask> = Vec::new();
    let mut i: usize = 0;
    proof {
        assert(task_views(tasks@) =~= lit_tasks_of(index.key_seq().take(0)));
    }
    while i < n
        invariant
            index.wf(),
            template@ == ti_techdocs(),
            n == index.key_seq().len(),
            i <= n,
            task_views(tasks@) == lit_tasks_of(index.key_seq().take(i as int)),
        decreases n - i,
    {
        let path = index.key_at(i).as_str();
        proof {
            assert(index.key_seq().take(i + 1).drop_last() =~= index.key_seq().take(i as int));
        }
        if starts_with(path, "/lit/pdf") {
            let name = replace_all(path, "/lit/pdf/", "");
            let task = techdoc_task(&template, name.as_str(), path);
            let ghost before = tasks@;
            tasks.push(task);
            proof {
                assert(task_views(tasks@) =~= task_views(before).push(task@));
            }
        }
        i += 1;
    }
    proof {
        assert(index.key_seq().take(n as int) =~= index.key_seq());
    }
    tasks
}

} // verus!
