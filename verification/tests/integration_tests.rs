//! End-to-end tests over one realistic skill descriptor.

use skills_ref::{read_properties, to_prompt, validate, DirectoryProbe, SkillSource};

fn pdf_skill_content() -> String {
    "---\nname: pdf\ndescription: Process PDF files, extracting text and tables\nlicense: Proprietary. See LICENSE.txt for terms\n---\n# PDF\n\nRead PDF documents.\n".to_string()
}

#[test]
fn test_validate_pdf_skill() {
    let probe = DirectoryProbe::Readable {
        content: pdf_skill_content(),
    };
    let errors = validate(&probe, &Some("pdf".to_string()));
    assert!(errors.is_empty());
}

#[test]
fn test_read_properties_pdf_skill() {
    let props = read_properties(&pdf_skill_content()).unwrap();

    assert_eq!(props.name, "pdf");
    assert!(props.description.contains("PDF"));
    assert!(props.license.is_some());
    assert!(props.license.as_ref().unwrap().contains("Proprietary"));
}

#[test]
fn test_to_prompt_pdf_skill() {
    let source = SkillSource::Found {
        content: pdf_skill_content(),
        location: Some("pdf/SKILL.md".to_string()),
    };
    let output = to_prompt(&vec![source]).unwrap();

    assert!(output.contains("<available_skills>"));
    assert!(output.contains("</available_skills>"));
    assert!(output.contains("<skill>"));
    assert!(output.contains("<name>"));
    assert!(output.contains("pdf"));
    assert!(output.contains("</name>"));
    assert!(output.contains("<description>"));
    assert!(output.contains("</description>"));
    assert!(output.contains("<location>"));
    assert!(output.contains("SKILL.md"));
    assert!(output.contains("</location>"));
}

#[test]
fn test_to_prompt_empty_list() {
    let output = to_prompt(&vec![]).unwrap();
    assert_eq!(output, "<available_skills>\n</available_skills>");
}

#[test]
fn test_read_then_to_dict_round_trip() {
    let props = read_properties(&pdf_skill_content()).unwrap();
    let dict = props.to_dict();
    let keys: Vec<&str> = dict.iter().map(|(k, _)| k.as_str()).collect();
    assert_eq!(keys, vec!["name", "description", "license"]);
}
