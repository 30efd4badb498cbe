use filmrank::csv::parse_csv;
use filmrank::server::csv::parse_csv as parse_csv_full;

#[test]
fn parse_csv_reads_films_after_the_header() {
    let content = "title,team,city\n\"Night Owl\", The Owls , Boston\nDaybreak,Sunrise\n";
    let films = parse_csv(content);
    assert_eq!(films.len(), 2);
    assert_eq!(films[0].id, 1);
    assert_eq!(films[0].title, "Night Owl");
    assert_eq!(films[0].team, "The Owls");
    assert_eq!(films[0].city, "Boston");
    assert_eq!(
        films[0].poster_url,
        "https://www.48hourfilm.com/storage/posters/48HFP Boston 2025 - The Owls - Poster - file 1.jpg"
    );
    assert_eq!(films[0].video_url, "");
    assert_eq!(films[1].id, 2);
    assert_eq!(films[1].title, "Daybreak");
    assert_eq!(films[1].team, "Sunrise");
    assert_eq!(films[1].city, "");
}

#[test]
fn parse_csv_skips_lines_without_a_team_but_counts_them() {
    let content = "header\nlonely\nA,B,C, with, commas\r\n";
    let films = parse_csv(content);
    assert_eq!(films.len(), 1);
    assert_eq!(films[0].id, 2);
    assert_eq!(films[0].city, "C, with, commas");
}

#[test]
fn parse_csv_of_empty_text_is_empty() {
    assert!(parse_csv("").is_empty());
    assert!(parse_csv("only a header").is_empty());
}

#[test]
fn parse_csv_full_takes_poster_override_and_video() {
    let content = "h\nT,Team,City,https://p/x.jpg,https://v/y\nU,Team2,City2,,\n";
    let films = parse_csv_full(content);
    assert_eq!(films.len(), 2);
    assert_eq!(films[0].poster_url, "https://p/x.jpg");
    assert_eq!(films[0].video_url, "https://v/y");
    assert_eq!(
        films[1].poster_url,
        "https://www.48hourfilm.com/storage/posters/48HFP City2 2025 - Team2 - Poster - file 1.jpg"
    );
    assert_eq!(films[1].video_url, "");
}
