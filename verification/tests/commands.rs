use cutlist_optimizer::cli::commands::{example_format, input_format, InputFormat};

#[test]
fn input_formats_by_extension() {
    assert_eq!(input_format(Some("csv")), Ok(InputFormat::Csv));
    assert_eq!(input_format(Some("json")), Ok(InputFormat::Json));
    assert_eq!(
        input_format(Some("txt")),
        Err("Unsupported file format. Expected .csv or .json".to_string())
    );
    assert!(input_format(None).is_err());
}

#[test]
fn example_formats() {
    assert_eq!(example_format("csv"), Ok(InputFormat::Csv));
    assert_eq!(example_format("json"), Ok(InputFormat::Json));
    assert_eq!(example_format("xml"), Err("Unsupported format: xml. Use 'csv' or 'json'".to_string()));
}
