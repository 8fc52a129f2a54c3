use bbn::post::{
    get_date, get_id_title, list_posts, list_posts_day, list_posts_month, list_posts_year,
    read_post, split_file_name, ListPostsError, Post,
};
use bbn::query::Query;
use std::convert::TryFrom;

fn names(v: &[&str]) -> Vec<String> {
    v.iter().map(|s| s.to_string()).collect()
}

#[test]
fn file_name_parts() {
    assert_eq!(split_file_name("2021-02-03-a.json"), ("2021-02-03-a", Some("json")));
    assert_eq!(split_file_name(".json"), (".json", None));
    assert_eq!(split_file_name("a.b.md"), ("a.b", Some("md")));
    assert_eq!(split_file_name("README"), ("README", None));
    assert_eq!(get_date("2021-02-03-a.json"), Some("2021-02-03"));
    assert_eq!(get_id_title("2021-02-03-a.json"), Some("a"));
    assert_eq!(get_id_title("2021-02-03.json"), None);
    assert_eq!(get_date("short.json"), None);
}

#[test]
fn select_directories_and_files() {
    let q = Query::try_from("date:2021-02").unwrap();
    assert_eq!(list_posts_year(&q, &names(&["2020", "2021"])), names(&["2021"]));
    assert_eq!(list_posts_month(&q, &names(&["01", "02", "03"])), names(&["02"]));
    assert_eq!(
        list_posts_day(
            &q,
            &names(&["2021-02-03.json", "2021-02-03.md", "2021-02-04-x.json", "2021-03-01.json"])
        ),
        names(&["2021-02-03.json", "2021-02-04-x.json"])
    );
    let all = Query::try_from("").unwrap();
    assert_eq!(list_posts_year(&all, &names(&["2020", "2021"])), names(&["2020", "2021"]));
}

#[test]
fn posts_from_files() {
    let post = read_post("2021-02-03-TITLE.json", r#"{"title":"TITLE1"}"#).unwrap();
    assert_eq!(
        post,
        Post {
            date: "2021-02-03".to_string(),
            title: "TITLE1".to_string(),
            id_title: Some("TITLE".to_string())
        }
    );
    assert_eq!(read_post("2021-02-03.json", r#"{"title":1}"#), None);
    let files = vec![
        ("2021-02-04.json".to_string(), r#"{"title":"B"}"#.to_string()),
        ("2021-02-03-x.json".to_string(), r#"{"title":"A"}"#.to_string()),
    ];
    let posts = list_posts(&files).unwrap();
    let dates: Vec<&str> = posts.iter().map(|p| p.date.as_str()).collect();
    assert_eq!(dates, vec!["2021-02-03", "2021-02-04"]);
    let bad = vec![("2021-02-04.json".to_string(), "{".to_string())];
    assert_eq!(list_posts(&bad), Err(ListPostsError::Meta));
}
