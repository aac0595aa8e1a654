use rcli::{
    convert_table, encode, process_csv, read_table, ConvertError, EncodingError, OutputFormat,
    Player, Record, Table, TOML_FIELD,
};

const SQUAD: &str = "Name,Position\nAlice,Forward\nBob,Keeper\n";

fn strings(items: &[&str]) -> Vec<String> {
    items.iter().map(|item| item.to_string()).collect()
}

#[test]
fn test_player_serialization() {
    let player = Player {
        name: "Test Player".to_string(),
        position: "Forward".to_string(),
        dob: "1990-01-01".to_string(),
        nationality: "Test Country".to_string(),
        kit_number: 10,
    };

    let mut object = serde_json::Map::new();
    object.insert(
        "Name".to_string(),
        serde_json::Value::String(player.name.clone()),
    );
    object.insert(
        "Position".to_string(),
        serde_json::Value::String(player.position.clone()),
    );
    object.insert(
        "DOB".to_string(),
        serde_json::Value::String(player.dob.clone()),
    );
    object.insert(
        "Nationality".to_string(),
        serde_json::Value::String(player.nationality.clone()),
    );
    object.insert(
        "Kit Number".to_string(),
        serde_json::Value::from(player.kit_number),
    );
    let json = serde_json::to_string(&serde_json::Value::Object(object)).unwrap();
    assert!(json.contains("Test Player"));
    assert!(json.contains("Forward"));
}

#[test]
fn test_process_csv_with_temp_file() {
    let mut input = String::new();
    input.push_str("Name,Position,DOB,Nationality,Kit Number\n");
    input.push_str("Test Player,Forward,1990-01-01,Test Country,10\n");

    let content = process_csv(input.as_bytes(), OutputFormat::Json).unwrap();
    assert!(content.contains("Test Player"));
    assert!(content.contains("Forward"));
}

#[test]
fn read_table_splits_header_and_rows() {
    let table = read_table(SQUAD.as_bytes()).unwrap();
    assert_eq!(table.header, strings(&["Name", "Position"]));
    assert_eq!(
        table.rows,
        vec![strings(&["Alice", "Forward"]), strings(&["Bob", "Keeper"])]
    );
}

#[test]
fn read_table_reads_quoted_cells() {
    let input = "name,motto\n\"Smith, Jo\",\"say \"\"hi\"\"\"\nplain,\"two\nlines\"\n";
    let table = read_table(input.as_bytes()).unwrap();
    assert_eq!(table.header, strings(&["name", "motto"]));
    assert_eq!(
        table.rows,
        vec![
            strings(&["Smith, Jo", "say \"hi\""]),
            strings(&["plain", "two\nlines"])
        ]
    );
}

#[test]
fn read_table_accepts_a_last_row_without_line_end() {
    let table = read_table(b"a,b\r\n1,2\r\n3,4").unwrap();
    assert_eq!(table.header, strings(&["a", "b"]));
    assert_eq!(table.rows, vec![strings(&["1", "2"]), strings(&["3", "4"])]);
}

#[test]
fn read_table_of_a_header_alone_has_no_rows() {
    let table = read_table(b"Name,Position\n").unwrap();
    assert_eq!(table.header, strings(&["Name", "Position"]));
    assert!(table.rows.is_empty());
}

#[test]
fn read_table_of_nothing_is_empty() {
    let table = read_table(b"").unwrap();
    assert!(table.header.is_empty());
    assert!(table.rows.is_empty());
}

#[test]
fn a_short_row_is_a_parse_error() {
    let result = read_table(b"a,b,c\n1,2,3\n4,5\n");
    assert!(matches!(result, Err(ConvertError::Parse(_))));
    for format in [OutputFormat::Json, OutputFormat::Yaml, OutputFormat::Toml] {
        assert!(matches!(
            process_csv(b"a,b,c\n1,2,3\n4,5\n", format),
            Err(ConvertError::Parse(_))
        ));
    }
}

#[test]
fn a_long_row_is_a_parse_error() {
    assert!(matches!(
        read_table(b"a,b\n1,2,3\n"),
        Err(ConvertError::Parse(_))
    ));
    assert!(matches!(
        process_csv(b"a,b\n1,2\n1,2,3\n1,2\n", OutputFormat::Json),
        Err(ConvertError::Parse(_))
    ));
}

#[test]
fn bytes_that_are_not_utf8_are_a_parse_error() {
    assert!(matches!(
        read_table(b"a,b\n1,\xff\n"),
        Err(ConvertError::Parse(_))
    ));
    assert!(matches!(
        read_table(b"a,\xff\n1,2\n"),
        Err(ConvertError::Parse(_))
    ));
}

#[test]
fn every_accepted_row_is_as_wide_as_the_header() {
    let table = read_table(b"a,b,c\n1,2,3\n,,\nx,y,z\n").unwrap();
    assert_eq!(table.rows.len(), 3);
    for row in &table.rows {
        assert_eq!(row.len(), table.header.len());
    }
}

#[test]
fn json_of_the_squad_is_an_array_of_objects() {
    let text = process_csv(SQUAD.as_bytes(), OutputFormat::Json).unwrap();
    let mut expected = String::new();
    expected.push_str("[\n");
    expected.push_str("  {\n");
    expected.push_str("    \"Name\": \"Alice\",\n");
    expected.push_str("    \"Position\": \"Forward\"\n");
    expected.push_str("  },\n");
    expected.push_str("  {\n");
    expected.push_str("    \"Name\": \"Bob\",\n");
    expected.push_str("    \"Position\": \"Keeper\"\n");
    expected.push_str("  }\n");
    expected.push_str("]");
    assert_eq!(text, expected);

    let compact: serde_json::Value = serde_json::from_str(
        "[{\"Name\":\"Alice\",\"Position\":\"Forward\"},{\"Name\":\"Bob\",\"Position\":\"Keeper\"}]",
    )
    .unwrap();
    let decoded: serde_json::Value = serde_json::from_str(&text).unwrap();
    assert_eq!(decoded, compact);
}

#[test]
fn toml_of_the_squad_is_a_data_array_of_two_tables() {
    let text = process_csv(SQUAD.as_bytes(), OutputFormat::Toml).unwrap();
    let document: toml::Table = toml::from_str(&text).unwrap();
    assert_eq!(document.len(), 1);
    let data = document.get("data").unwrap().as_array().unwrap();
    assert_eq!(data.len(), 2);
    let first = data[0].as_table().unwrap();
    assert_eq!(first.len(), 2);
    assert_eq!(first.get("Name").unwrap().as_str(), Some("Alice"));
    assert_eq!(first.get("Position").unwrap().as_str(), Some("Forward"));
    let second = data[1].as_table().unwrap();
    assert_eq!(second.len(), 2);
    assert_eq!(second.get("Name").unwrap().as_str(), Some("Bob"));
    assert_eq!(second.get("Position").unwrap().as_str(), Some("Keeper"));
    assert_eq!(
        text,
        "[[data]]\nName = \"Alice\"\nPosition = \"Forward\"\n\n[[data]]\nName = \"Bob\"\nPosition = \"Keeper\"\n"
    );
}

#[test]
fn yaml_of_the_squad_is_a_sequence_of_mappings() {
    let text = process_csv(SQUAD.as_bytes(), OutputFormat::Yaml).unwrap();
    assert_eq!(
        text,
        "- Name: Alice\n  Position: Forward\n- Name: Bob\n  Position: Keeper\n"
    );
    let decoded: serde_yaml::Value = serde_yaml::from_str(&text).unwrap();
    let rows = decoded.as_sequence().unwrap();
    assert_eq!(rows.len(), 2);
    let first = rows[0].as_mapping().unwrap();
    assert_eq!(first.len(), 2);
    assert_eq!(first.get("Name").unwrap().as_str(), Some("Alice"));
    assert_eq!(first.get("Position").unwrap().as_str(), Some("Forward"));
}

#[test]
fn json_keeps_every_row_and_cell() {
    let input = "id,name,note\n1,Ann,\n2,\"Bo, Jr\",x y\n3,Cy,\"q\"\"t\"\n1,Ann,\n";
    let table = read_table(input.as_bytes()).unwrap();
    let text = process_csv(input.as_bytes(), OutputFormat::Json).unwrap();
    let decoded: serde_json::Value = serde_json::from_str(&text).unwrap();
    let rows = decoded.as_array().unwrap();
    assert_eq!(rows.len(), table.rows.len());
    assert_eq!(rows.len(), 4);
    for (row, cells) in rows.iter().zip(table.rows.iter()) {
        let object = row.as_object().unwrap();
        assert_eq!(object.len(), table.header.len());
        let keys: Vec<&String> = object.keys().collect();
        let names: Vec<&String> = table.header.iter().collect();
        assert_eq!(keys, names);
        for (name, cell) in table.header.iter().zip(cells.iter()) {
            assert_eq!(object.get(name).unwrap().as_str(), Some(cell.as_str()));
        }
    }
}

#[test]
fn yaml_keeps_every_row_and_cell() {
    let input = "id,name,note\n1,Ann,\n2,\"Bo, Jr\",x: y\n3,Cy,- z\ntrue,null,~\n";
    let table = read_table(input.as_bytes()).unwrap();
    let text = process_csv(input.as_bytes(), OutputFormat::Yaml).unwrap();
    let decoded: serde_yaml::Value = serde_yaml::from_str(&text).unwrap();
    let rows = decoded.as_sequence().unwrap();
    assert_eq!(rows.len(), table.rows.len());
    assert_eq!(rows.len(), 4);
    for (row, cells) in rows.iter().zip(table.rows.iter()) {
        let mapping = row.as_mapping().unwrap();
        assert_eq!(mapping.len(), table.header.len());
        for ((key, value), (name, cell)) in
            mapping.iter().zip(table.header.iter().zip(cells.iter()))
        {
            assert_eq!(key.as_str(), Some(name.as_str()));
            assert_eq!(value.as_str(), Some(cell.as_str()));
        }
    }
}

#[test]
fn toml_keeps_every_row_and_cell() {
    let input = "id,full name,note\n1,Ann,\n2,\"Bo, Jr\",a.b\n3,Cy,\"q\"\"t\"\n";
    let table = read_table(input.as_bytes()).unwrap();
    let text = process_csv(input.as_bytes(), OutputFormat::Toml).unwrap();
    let document: toml::Table = toml::from_str(&text).unwrap();
    let rows = document.get(TOML_FIELD).unwrap().as_array().unwrap();
    assert_eq!(rows.len(), 3);
    for (row, cells) in rows.iter().zip(table.rows.iter()) {
        let entries = row.as_table().unwrap();
        assert_eq!(entries.len(), table.header.len());
        let keys: Vec<&String> = entries.keys().collect();
        let names: Vec<&String> = table.header.iter().collect();
        assert_eq!(keys, names);
        for (name, cell) in table.header.iter().zip(cells.iter()) {
            assert_eq!(entries.get(name).unwrap().as_str(), Some(cell.as_str()));
        }
    }
}

#[test]
fn cells_that_look_like_numbers_stay_text() {
    let input = "n,flag\n10,true\n-3.5,null\n";
    let json: serde_json::Value =
        serde_json::from_str(&process_csv(input.as_bytes(), OutputFormat::Json).unwrap()).unwrap();
    assert_eq!(json[0]["n"], serde_json::Value::String("10".to_string()));
    assert_eq!(
        json[1]["flag"],
        serde_json::Value::String("null".to_string())
    );
    let yaml: serde_yaml::Value =
        serde_yaml::from_str(&process_csv(input.as_bytes(), OutputFormat::Yaml).unwrap()).unwrap();
    assert_eq!(yaml[0]["n"], serde_yaml::Value::String("10".to_string()));
    assert_eq!(
        yaml[0]["flag"],
        serde_yaml::Value::String("true".to_string())
    );
    let toml_text = process_csv(input.as_bytes(), OutputFormat::Toml).unwrap();
    let document: toml::Table = toml::from_str(&toml_text).unwrap();
    let rows = document.get("data").unwrap().as_array().unwrap();
    assert_eq!(rows[1].get("n").unwrap().as_str(), Some("-3.5"));
}

#[test]
fn only_toml_wraps_the_records_in_a_field() {
    let json: serde_json::Value =
        serde_json::from_str(&process_csv(SQUAD.as_bytes(), OutputFormat::Json).unwrap()).unwrap();
    assert!(json.is_array());
    let yaml: serde_yaml::Value =
        serde_yaml::from_str(&process_csv(SQUAD.as_bytes(), OutputFormat::Yaml).unwrap()).unwrap();
    assert!(yaml.is_sequence());
    let document: toml::Table =
        toml::from_str(&process_csv(SQUAD.as_bytes(), OutputFormat::Toml).unwrap()).unwrap();
    let keys: Vec<&String> = document.keys().collect();
    assert_eq!(keys, vec!["data"]);
    assert!(document.get("data").unwrap().is_array());
    assert_eq!(TOML_FIELD, "data");
}

#[test]
fn a_header_alone_gives_an_empty_collection() {
    let input = b"Name,Position\n";
    assert_eq!(process_csv(input, OutputFormat::Json).unwrap(), "[]");
    assert_eq!(process_csv(input, OutputFormat::Yaml).unwrap(), "[]\n");
    let toml_text = process_csv(input, OutputFormat::Toml).unwrap();
    assert_eq!(toml_text, "data = []\n");
    let document: toml::Table = toml::from_str(&toml_text).unwrap();
    assert_eq!(document.len(), 1);
    assert!(document.get("data").unwrap().as_array().unwrap().is_empty());
}

#[test]
fn an_empty_document_gives_an_empty_collection() {
    assert_eq!(process_csv(b"", OutputFormat::Json).unwrap(), "[]");
    assert_eq!(process_csv(b"", OutputFormat::Yaml).unwrap(), "[]\n");
    assert_eq!(
        process_csv(b"", OutputFormat::Toml).unwrap(),
        "data = []\n"
    );
}

#[test]
fn column_names_are_escaped_by_the_encoders() {
    let input = "\"a \"\"b\"\"\",c.d,e: f\n1,2,3\n";
    let header = strings(&["a \"b\"", "c.d", "e: f"]);
    let json: serde_json::Value =
        serde_json::from_str(&process_csv(input.as_bytes(), OutputFormat::Json).unwrap()).unwrap();
    let object = json[0].as_object().unwrap();
    let keys: Vec<&String> = object.keys().collect();
    assert_eq!(keys, header.iter().collect::<Vec<&String>>());
    let yaml: serde_yaml::Value =
        serde_yaml::from_str(&process_csv(input.as_bytes(), OutputFormat::Yaml).unwrap()).unwrap();
    let mapping = yaml[0].as_mapping().unwrap();
    for (key, name) in mapping.keys().zip(header.iter()) {
        assert_eq!(key.as_str(), Some(name.as_str()));
    }
    let document: toml::Table =
        toml::from_str(&process_csv(input.as_bytes(), OutputFormat::Toml).unwrap()).unwrap();
    let table = document.get("data").unwrap().as_array().unwrap()[0]
        .as_table()
        .unwrap();
    let keys: Vec<&String> = table.keys().collect();
    assert_eq!(keys, header.iter().collect::<Vec<&String>>());
    assert_eq!(table.get("c.d").unwrap().as_str(), Some("2"));
}

#[test]
fn columns_keep_the_order_of_the_header() {
    let input = "zeta,alpha,mid\n1,2,3\n";
    let text = process_csv(input.as_bytes(), OutputFormat::Json).unwrap();
    assert_eq!(
        text,
        "[\n  {\n    \"zeta\": \"1\",\n    \"alpha\": \"2\",\n    \"mid\": \"3\"\n  }\n]"
    );
    assert_eq!(
        process_csv(input.as_bytes(), OutputFormat::Yaml).unwrap(),
        "- zeta: '1'\n  alpha: '2'\n  mid: '3'\n"
    );
    assert_eq!(
        process_csv(input.as_bytes(), OutputFormat::Toml).unwrap(),
        "[[data]]\nzeta = \"1\"\nalpha = \"2\"\nmid = \"3\"\n"
    );
}

#[test]
fn a_repeated_column_name_gives_one_member() {
    let text = process_csv(b"a,b,a\n1,2,3\n", OutputFormat::Json).unwrap();
    assert_eq!(text, "[\n  {\n    \"a\": \"3\",\n    \"b\": \"2\"\n  }\n]");
}

#[test]
fn convert_table_is_the_second_half_of_process_csv() {
    let table = read_table(SQUAD.as_bytes()).unwrap();
    for format in [OutputFormat::Json, OutputFormat::Yaml, OutputFormat::Toml] {
        assert_eq!(
            convert_table(&table, format).unwrap(),
            process_csv(SQUAD.as_bytes(), format).unwrap()
        );
    }
}

#[test]
fn convert_table_takes_a_table_built_by_hand() {
    let table = Table {
        header: strings(&["k"]),
        rows: vec![strings(&["v"]), strings(&["w"])],
    };
    assert_eq!(
        convert_table(&table, OutputFormat::Yaml).unwrap(),
        "- k: v\n- k: w\n"
    );
}

#[test]
fn encode_writes_records_built_by_hand() {
    let mut record = Record::new();
    record.insert("city".to_string(), "Oslo".to_string());
    record.insert("country".to_string(), "Norway".to_string());
    let records = vec![record];
    assert_eq!(
        encode(&records, OutputFormat::Json).unwrap(),
        "[\n  {\n    \"city\": \"Oslo\",\n    \"country\": \"Norway\"\n  }\n]"
    );
    assert_eq!(
        encode(&records, OutputFormat::Yaml).unwrap(),
        "- city: Oslo\n  country: Norway\n"
    );
    assert_eq!(
        encode(&records, OutputFormat::Toml).unwrap(),
        "[[data]]\ncity = \"Oslo\"\ncountry = \"Norway\"\n"
    );
}

#[test]
fn encode_of_no_records_does_not_fail() {
    let records: Vec<Record> = Vec::new();
    for format in [OutputFormat::Json, OutputFormat::Yaml, OutputFormat::Toml] {
        let result = encode(&records, format);
        assert!(!matches!(
            result,
            Err(ConvertError::Encoding(EncodingError::Json(_)))
                | Err(ConvertError::Encoding(EncodingError::Yaml(_)))
                | Err(ConvertError::Encoding(EncodingError::Toml(_)))
        ));
        assert!(result.is_ok());
    }
}
