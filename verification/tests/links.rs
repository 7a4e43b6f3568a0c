use llh::links::{category_ids, collect_links, CollectError, LinkRule, LinkSet};
use llh::table::Table;
use llh::vendor::{
    clean_category, lit_tasks, note_st_doc, nxp_menu_rule, part_number, st_data_page, st_datasheet_template,
    st_menu_rule, st_page_file, st_techdoc_template, st_url, ti_criteria_url, ti_datasheet_template,
    ti_doc_is_counted, ti_key_field, ti_menu_rule, ti_product_url, ti_products_page, ti_results_url,
    ti_techdoc_template, Cell, ST_CEILING, TI_CEILING,
};

fn strings(v: &[&str]) -> Vec<String> {
    v.iter().map(|s| s.to_string()).collect()
}

fn links_in_order(set: &LinkSet) -> Vec<String> {
    (0..set.len()).map(|i| set.link_at(i).clone()).collect()
}

#[test]
fn ti_menu_links() {
    let rule = ti_menu_rule();
    assert!(rule.accepts("//www.ti.com/amplifier-circuit/overview.html"));
    assert!(!rule.accepts("/www.ti.com/amplifier-circuit/overview.html"));
    assert!(!rule.accepts("//www.ti.com/amplifier-circuit/products.html"));
    assert!(!rule.accepts("//www.ti.com/applications/automotive/overview.html"));
    assert_eq!(rule.link("//www.ti.com/a/overview.html"), "http://www.ti.com/a/overview.html");
}

#[test]
fn st_and_nxp_menu_links() {
    let st = st_menu_rule();
    assert!(st.accepts("/en/microcontrollers.html"));
    assert!(!st.accepts("/content/en/microcontrollers.html"));
    assert!(!st.accepts("/en/applications/iot.html"));
    assert!(!st.accepts("/en/development-tools/x.html"));
    assert!(!st.accepts("/en/embedded-software/x.html"));
    assert!(!st.accepts("/en/evaluation-tools/x.html"));
    assert_eq!(st.link("/en/mcu.html"), "https://www.st.com/en/mcu.html");
    let nxp = nxp_menu_rule();
    assert!(nxp.accepts("/products/rf:RF_HOME"));
    assert!(!nxp.accepts("/products/rf?x=1"));
    assert!(!nxp.accepts("/company/about"));
    assert_eq!(nxp.link("/products/rf"), "/products/rf");
}

#[test]
fn collecting_links_drops_duplicates() {
    let rule = ti_menu_rule();
    let hrefs = strings(&[
        "//h/a/overview.html",
        "#",
        "//h/b/overview.html",
        "//h/a/overview.html",
        "//h/applications/c/overview.html",
    ]);
    let set = collect_links(&rule, &hrefs).ok().unwrap();
    assert_eq!(set.len(), 2);
    assert_eq!(links_in_order(&set), strings(&["http://h/a/overview.html", "http://h/b/overview.html"]));
    assert!(set.contains(&"http://h/b/overview.html".to_string()));
    assert!(!set.contains(&"//h/b/overview.html".to_string()));
}

#[test]
fn no_links_is_an_error() {
    let rule = ti_menu_rule();
    assert_eq!(collect_links(&rule, &Vec::new()).err(), Some(CollectError::NoLinks));
    assert_eq!(collect_links(&rule, &strings(&["/x", "#"])).err(), Some(CollectError::NoLinks));
}

#[test]
fn link_set_grows_over_pages() {
    let all = LinkRule::all();
    assert!(all.accepts(""));
    assert!(all.accepts("anything"));
    assert_eq!(all.link("x"), "x");
    let mut set = LinkSet::new();
    assert_eq!(set.len(), 0);
    set.extend(&all, &strings(&["a", "b"]));
    set.extend(&all, &strings(&["b", "c", ""]));
    assert_eq!(links_in_order(&set), strings(&["a", "b", "c", ""]));
    assert!(!set.insert("a".to_string()));
    assert!(set.insert("d".to_string()));
    assert_eq!(set.len(), 5);
}

#[test]
fn vendor_addresses() {
    assert_eq!(
        ti_criteria_url("1234"),
        "https://www.ti.com/selectiontool/paramdata/family/1234/criteria?lang=en&output=json"
    );
    assert_eq!(
        ti_results_url("1234"),
        "https://www.ti.com/selectiontool/paramdata/family/1234/results?lang=en&output=json"
    );
    assert_eq!(ti_product_url("LM358"), "https://www.ti.com/product/LM358");
    assert_eq!(st_url("/en/mcu.html"), "https://www.st.com/en/mcu.html");
    assert_eq!(st_page_file("SC2154"), "json/st/datapages/SC2154.json");
    assert_eq!(ti_key_field(), "o1");
    assert_eq!(TI_CEILING, 3);
    assert_eq!(ST_CEILING, 8);
    assert_eq!(ti_products_page("http://www.ti.com/a/overview.html"), "http://www.ti.com/a/products.html");
    assert_eq!(
        st_data_page("https://www.st.com/en/mcu.html", "SC2154"),
        "https://www.st.com/en/mcu.cxst-ps-grid.html/SC2154.json"
    );
}

#[test]
fn vendor_templates() {
    let t = ti_datasheet_template();
    assert_eq!(llh::tasks::datasheet_task(&t, "LM358").url, "https://www.ti.com/lit/gpn/LM358");
    assert_eq!(llh::tasks::datasheet_task(&t, "LM358").dest, "pdf/ti/gpn/LM358.pdf");
    let t = st_datasheet_template();
    assert_eq!(
        llh::tasks::datasheet_task(&t, "stm32f103c8").url,
        "https://www.st.com/resource/en/datasheet/stm32f103c8.pdf"
    );
    assert_eq!(llh::tasks::datasheet_task(&t, "stm32f103c8").dest, "pdf/st/datasheets/stm32f103c8.pdf");
    let t = st_techdoc_template();
    let task = llh::tasks::techdoc_task(&t, "AN1/2", "/resource/an1.pdf");
    assert_eq!(task.url, "https://www.st.com/resource/an1.pdf");
    assert_eq!(task.dest, "pdf/st/techdocs/AN1_2.pdf");
    let t = ti_techdoc_template();
    let task = llh::tasks::techdoc_task(&t, "slva001", "/lit/pdf/slva001");
    assert_eq!(task.url, "https://www.ti.com/lit/pdf/slva001");
    assert_eq!(task.dest, "pdf/ti/lit/slva001.pdf");
}

#[test]
fn category_labels() {
    assert_eq!(clean_category("  Amplifiers \u{2013} Products \n"), "Amplifiers");
    assert_eq!(clean_category("Clocks & timing - Products"), "Clocks & timing");
    assert_eq!(clean_category("Sensors"), "Sensors");
    assert_eq!(clean_category(""), "");
}

#[test]
fn part_number_of_a_row() {
    let cell = |c: &str, v: &str| Cell { column: c.to_string(), value: v.to_string() };
    assert_eq!(part_number(&vec![cell("0", "x"), cell("1", "STM32F1"), cell("1", "other")]), Some(&"STM32F1".to_string()));
    assert_eq!(part_number(&vec![cell("0", "x"), cell("2", "y")]), None);
    assert_eq!(part_number(&vec![cell("1", ""), cell("1", "late")]), None);
    assert_eq!(part_number(&Vec::new()), None);
}

#[test]
fn st_documents_noted() {
    let mut index: Table<String> = Table::new();
    assert!(note_st_doc(&mut index, " AN1234 \n", " /resource/en/application_note/an1234.pdf "));
    assert!(!note_st_doc(&mut index, "DS1", "/resource/en/datasheet/ds1.pdf"));
    assert!(!note_st_doc(&mut index, "", "/resource/en/x.pdf"));
    assert!(note_st_doc(&mut index, "AN1234", "/resource/en/application_note/an1234_v2.pdf"));
    assert!(note_st_doc(&mut index, " ", "/resource/en/blank.pdf"));
    assert_eq!(index.len(), 2);
    assert_eq!(index.get(&"AN1234".to_string()), Some(&"/resource/en/application_note/an1234_v2.pdf".to_string()));
    assert_eq!(index.get(&"".to_string()), Some(&"/resource/en/blank.pdf".to_string()));
}

#[test]
fn ti_documents_counted() {
    assert!(ti_doc_is_counted("Application note"));
    assert!(!ti_doc_is_counted("Datasheet"));
    assert!(!ti_doc_is_counted("LM358 Data sheet (Rev. A)"));
    assert!(ti_doc_is_counted("datasheet"));
}

#[test]
fn literature_tasks() {
    let mut index: Table<String> = Table::new();
    index.insert("/lit/pdf/slva001".to_string(), "Note 1".to_string());
    index.insert("/lit/zip/slvc002".to_string(), "Files".to_string());
    index.insert("/lit/pdf/sbaa/003".to_string(), "Note 3".to_string());
    index.insert("/lit/pdf".to_string(), "Odd".to_string());
    let tasks = lit_tasks(&index);
    let urls: Vec<&str> = tasks.iter().map(|t| t.url.as_str()).collect();
    let dests: Vec<&str> = tasks.iter().map(|t| t.dest.as_str()).collect();
    assert_eq!(
        urls,
        vec!["https://www.ti.com/lit/pdf/slva001", "https://www.ti.com/lit/pdf/sbaa/003", "https://www.ti.com/lit/pdf"]
    );
    assert_eq!(dests, vec!["pdf/ti/lit/slva001.pdf", "pdf/ti/lit/sbaa_003.pdf", "pdf/ti/lit/_lit_pdf.pdf"]);
    assert!(lit_tasks(&Table::new()).is_empty());
}

#[test]
fn category_ids_in_order() {
    let mut index: Table<String> = Table::new();
    assert_eq!(category_ids(&index).err(), Some(CollectError::NoCategories));
    index.insert("Amplifiers".to_string(), "100".to_string());
    index.insert("Clocks".to_string(), "200".to_string());
    index.insert("Amplifiers".to_string(), "300".to_string());
    assert_eq!(category_ids(&index).ok(), Some(strings(&["300", "200"])));
}
