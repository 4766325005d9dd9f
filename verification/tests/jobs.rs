use blender_batch_render_helper::jobs::{paginate_jobs, sort_jobs, text_le_exec, Job};

fn job(id: &str, description: &str) -> Job {
    let e = String::new;
    Job {
        id: id.to_string(),
        source_blend_path: e(),
        description: description.to_string(),
        package: e(),
        additional_file_count: e(),
        key: e(),
        scene: e(),
        xres: e(),
        yres: e(),
        samples: e(),
        percentage: e(),
        startframe: e(),
        endframe: e(),
        step: e(),
        is_uploaded: e(),
        status: e(),
        cloudid: e(),
        error: e(),
        started_at: e(),
        stopped_at: e(),
        use_large_disk: e(),
        parent: e(),
    }
}

fn ids(jobs: &[Job]) -> Vec<String> {
    jobs.iter().map(|j| format!("{}{}", j.id, j.description)).collect()
}

fn sample() -> Vec<Job> {
    vec![job("b", "1"), job("a", "2"), job("c", "3"), job("a", "4"), job("10", "5"), job("9", "6")]
}

#[test]
fn texts_order_like_string() {
    for (a, b) in [("a", "b"), ("ab", "a"), ("", "x"), ("10", "9"), ("é", "z"), ("same", "same")] {
        assert_eq!(text_le_exec(&a.to_string(), &b.to_string()), a <= b, "{} {}", a, b);
    }
}

#[test]
fn ascending_sort_is_stable() {
    let sorted = sort_jobs(sample(), false);
    assert_eq!(ids(&sorted), vec!["105", "96", "a2", "a4", "b1", "c3"]);
}

#[test]
fn descending_sort_is_stable() {
    let sorted = sort_jobs(sample(), true);
    assert_eq!(ids(&sorted), vec!["c3", "b1", "a2", "a4", "96", "105"]);
}

#[test]
fn sort_matches_std_stable_sort() {
    let mut expected = sample();
    expected.sort_by(|a, b| a.id.cmp(&b.id));
    assert_eq!(sort_jobs(sample(), false), expected);
    let mut expected = sample();
    expected.sort_by(|a, b| b.id.cmp(&a.id));
    assert_eq!(sort_jobs(sample(), true), expected);
}

#[test]
fn first_page_in_ascending_order() {
    let page = paginate_jobs(sample(), Some("asc"), 1, 4);
    assert_eq!(page.total_count, 6);
    assert_eq!(ids(&page.data), vec!["105", "96", "a2", "a4"]);
}

#[test]
fn last_page_is_cut_short() {
    let page = paginate_jobs(sample(), Some("desc"), 2, 4);
    assert_eq!(page.total_count, 6);
    assert_eq!(ids(&page.data), vec!["96", "105"]);
}

#[test]
fn unknown_order_keeps_the_list() {
    let page = paginate_jobs(sample(), Some("random"), 1, 10);
    assert_eq!(ids(&page.data), vec!["b1", "a2", "c3", "a4", "105", "96"]);
    let page = paginate_jobs(sample(), None, 3, 2);
    assert_eq!(ids(&page.data), vec!["105", "96"]);
}

#[test]
fn page_just_past_the_end_is_empty() {
    let page = paginate_jobs(sample(), None, 4, 2);
    assert_eq!(page.total_count, 6);
    assert!(page.data.is_empty());
}

#[test]
fn empty_list() {
    let page = paginate_jobs(Vec::new(), Some("asc"), 1, 10);
    assert_eq!(page.total_count, 0);
    assert!(page.data.is_empty());
}
