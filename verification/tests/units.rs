use nps::cache::parse_json_to_lines;
use nps::columns::sort_and_pad_matches;
use nps::highlight::color_matches;
use nps::search::get_matches;
use nps::settings::{ColumnsChoice, Settings};
use nps::text::convert_case;

fn experimental(term: &str, columns: ColumnsChoice) -> Settings {
    let mut cli = Settings::new(term);
    cli.experimental = true;
    cli.columns = columns;
    cli
}

#[test]
fn test_get_matches() {
    let cli = Settings::new("second");
    let content = "\
        the first line\n\
        the second line\n\
        the third line\
        ";
    let matches = get_matches(&cli, content).unwrap();

    assert_eq!(matches, "the second line\n");
}

#[test]
fn test_convert_case() {
    let test_string = "abCDef";

    assert_eq!(convert_case(test_string, false), "abCDef");
    assert_eq!(convert_case(test_string, true), "abcdef");
}

#[test]
fn test_sort_and_pad_matches() {
    let cli_all_columns = experimental("mypackage", ColumnsChoice::All);
    let cli_no_other_columns = experimental("mypackage", ColumnsChoice::NameOnly);
    let cli_version_column = experimental("mypackage", ColumnsChoice::Version);
    let cli_description_column = experimental("mypackage", ColumnsChoice::Description);
    let matches = "\
        mypackage v1 my package description\n\
        myotherpackage v2 has description as well\n\
        mypackage_extension v3 words words\n\
        mypackage_extension_2 v4 words words w0rds\n\
        mylastpackage v5.0.0 is not mypackage\
        "
    .to_string();

    let exact_matches_all_columns = "\
        mypackage              v1      my package description\
        ";
    let direct_matches_all_columns = "\
        mypackage_extension    v3      words words\n\
        mypackage_extension_2  v4      words words w0rds\
        ";
    let indirect_matches_all_columns = "\
        myotherpackage         v2      has description as well\n\
        mylastpackage          v5.0.0  is not mypackage\
        ";

    let exact_matches_no_other_columns = "\
        mypackage \
        ";
    let direct_matches_no_other_columns = "\
        mypackage_extension \n\
        mypackage_extension_2 \
        ";
    let indirect_matches_no_other_columns = "\
        myotherpackage \n\
        mylastpackage \
        ";

    let exact_matches_version_column = "\
        mypackage              v1\
        ";
    let direct_matches_version_column = "\
        mypackage_extension    v3\n\
        mypackage_extension_2  v4\
        ";
    let indirect_matches_version_column = "\
        myotherpackage         v2\n\
        mylastpackage          v5.0.0\
        ";

    let exact_matches_description_column = "\
        mypackage              my package description\
        ";
    let direct_matches_description_column = "\
        mypackage_extension    words words\n\
        mypackage_extension_2  words words w0rds\
        ";
    let indirect_matches_description_column = "\
        myotherpackage         has description as well\n\
        mylastpackage          is not mypackage\
        ";

    let sorted_and_padded_all_columns = sort_and_pad_matches(&cli_all_columns, &matches);
    let sorted_and_padded_no_other_columns =
        sort_and_pad_matches(&cli_no_other_columns, &matches);
    let sorted_and_padded_version_column = sort_and_pad_matches(&cli_version_column, &matches);
    let sorted_and_padded_description_column =
        sort_and_pad_matches(&cli_description_column, &matches);

    assert_eq!(
        exact_matches_all_columns,
        sorted_and_padded_all_columns.0.join("\n")
    );
    assert_eq!(
        direct_matches_all_columns,
        sorted_and_padded_all_columns.1.join("\n")
    );
    assert_eq!(
        indirect_matches_all_columns,
        sorted_and_padded_all_columns.2.join("\n")
    );

    assert_eq!(
        exact_matches_no_other_columns,
        sorted_and_padded_no_other_columns.0.join("\n")
    );
    assert_eq!(
        direct_matches_no_other_columns,
        sorted_and_padded_no_other_columns.1.join("\n")
    );
    assert_eq!(
        indirect_matches_no_other_columns,
        sorted_and_padded_no_other_columns.2.join("\n")
    );

    assert_eq!(
        exact_matches_version_column,
        sorted_and_padded_version_column.0.join("\n")
    );
    assert_eq!(
        direct_matches_version_column,
        sorted_and_padded_version_column.1.join("\n")
    );
    assert_eq!(
        indirect_matches_version_column,
        sorted_and_padded_version_column.2.join("\n")
    );

    assert_eq!(
        exact_matches_description_column,
        sorted_and_padded_description_column.0.join("\n")
    );
    assert_eq!(
        direct_matches_description_column,
        sorted_and_padded_description_column.1.join("\n")
    );
    assert_eq!(
        indirect_matches_description_column,
        sorted_and_padded_description_column.2.join("\n")
    );
}

#[test]
fn test_parse_json_to_lines() {
    let json = "{\
        \"legacyPackages.x86_64-linux.mypackage\": {\
        \"description\":\"i describe\",\
        \"pname\":\"mypackagebinary\",\
        \"version\":\"old\"},\
        \
        \"legacyPackages.x86_64-linux.myotherpackage\": {\
        \"description\":\"i also describe\",\
        \"pname\":\"myotherpackagebinary\",\
        \"version\":\"fresh\"}\
        }";
    let desired_output = "\
        myotherpackage fresh i also describe\n\
        mypackage old i describe\
        ";
    let parsed = parse_json_to_lines(json).unwrap();

    assert_eq!(parsed, desired_output);
}

#[test]
fn test_color_matches() {
    let cli = experimental("mypackage", ColumnsChoice::All);
    let exact_matches = vec!["mypackage             v1     my package description".to_string()];
    let direct_matches = vec![
        "mypackage_extension   v1     my package description".to_string(),
        "mypackage_extension_2 v1.0.1 my package description".to_string(),
    ];
    let indirect_matches = vec![
        "mylastpackage         v5.0.0 is not mypackage".to_string(),
        "mylastpackage_2       v1     is not mypackage either".to_string(),
    ];

    let expect_color = [
        "\u{1b}[0m\u{1b}[1m\u{1b}[35mmypackage\u{1b}[0m             v1     my package description\n",
        "\u{1b}[0m\u{1b}[1m\u{1b}[34mmypackage\u{1b}[0m_extension_2 v1.0.1 my package description\n\
            \u{1b}[0m\u{1b}[1m\u{1b}[34mmypackage\u{1b}[0m_extension   v1     my package description\n",
        "mylastpackage_2       v1     is not \u{1b}[0m\u{1b}[1m\u{1b}[32mmypackage\u{1b}[0m either\n\
            mylastpackage         v5.0.0 is not \u{1b}[0m\u{1b}[1m\u{1b}[32mmypackage\u{1b}[0m\n",
    ];
    let expect_no_color = [
        "mypackage             v1     my package description\n",
        "mypackage_extension_2 v1.0.1 my package description\n\
            mypackage_extension   v1     my package description\n",
        "mylastpackage_2       v1     is not mypackage either\n\
            mylastpackage         v5.0.0 is not mypackage\n",
    ];

    let matches = (exact_matches, direct_matches, indirect_matches);

    let colored_matches_color = color_matches(&cli, matches.clone(), true).unwrap();
    let colored_matches_no_color = color_matches(&cli, matches, false).unwrap();

    for (expect, output) in std::iter::zip(
        [expect_color, expect_no_color].concat(),
        [colored_matches_color, colored_matches_no_color].concat(),
    ) {
        assert_eq!(expect, output);
    }
}
