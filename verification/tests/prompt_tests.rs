//! Tests for prompt rendering: skeleton shape, escaping, ordering, and
//! first-failure-aborts semantics.

use skills_ref::{html_escape, to_prompt, SkillSource};

fn found(name: &str, description: &str) -> SkillSource {
    SkillSource::Found {
        content: format!(
            "---\nname: {}\ndescription: {}\n---\n# {}\n",
            name, description, name
        ),
        location: Some(format!("skills/{}/SKILL.md", name)),
    }
}

#[test]
fn test_empty_skill_list() {
    let result = to_prompt(&vec![]).unwrap();
    assert_eq!(result, "<available_skills>\n</available_skills>");
}

#[test]
fn test_single_skill() {
    let result = to_prompt(&vec![found("my-skill", "A test skill")]).unwrap();

    assert!(result.contains("<available_skills>"));
    assert!(result.contains("</available_skills>"));
    assert!(result.contains("<skill>"));
    assert!(result.contains("</skill>"));
    assert!(result.contains("<name>"));
    assert!(result.contains("my-skill"));
    assert!(result.contains("</name>"));
    assert!(result.contains("<description>"));
    assert!(result.contains("A test skill"));
    assert!(result.contains("</description>"));
    assert!(result.contains("<location>"));
    assert!(result.contains("SKILL.md"));
    assert!(result.contains("</location>"));
}

#[test]
fn test_multiple_skills() {
    let result = to_prompt(&vec![
        found("skill-one", "First skill"),
        found("skill-two", "Second skill"),
    ])
    .unwrap();

    assert!(result.contains("skill-one"));
    assert!(result.contains("First skill"));
    assert!(result.contains("skill-two"));
    assert!(result.contains("Second skill"));

    let skill_count = result.matches("<skill>").count();
    assert_eq!(skill_count, 2);
}

#[test]
fn test_skills_render_in_input_order() {
    let result = to_prompt(&vec![
        found("skill-one", "First skill"),
        found("skill-two", "Second skill"),
    ])
    .unwrap();
    let one = result.find("skill-one").unwrap();
    let close_one = result.find("</skill>").unwrap();
    let two = result.find("skill-two").unwrap();
    assert!(one < close_one && close_one < two);
}

#[test]
fn test_html_escaping() {
    let source = SkillSource::Found {
        content: "---\nname: test-skill\ndescription: A skill with <special> & \"characters\"\n---\n# Test\n"
            .to_string(),
        location: Some("skills/test-skill/SKILL.md".to_string()),
    };
    let result = to_prompt(&vec![source]).unwrap();

    assert!(result.contains("&lt;special&gt;"));
    assert!(result.contains("&amp;"));
    assert!(result.contains("&quot;characters&quot;"));
}

#[test]
fn test_html_escape_exact() {
    assert_eq!(html_escape("a&b<c>d\"e'f"), "a&amp;b&lt;c&gt;d&quot;e&#x27;f");
    assert_eq!(html_escape("&amp;"), "&amp;amp;");
    assert_eq!(html_escape("plain"), "plain");
    assert_eq!(html_escape(""), "");
}

#[test]
fn test_output_format() {
    let result = to_prompt(&vec![found("my-skill", "A test skill")]).unwrap();
    let lines: Vec<&str> = result.lines().collect();

    assert_eq!(lines[0], "<available_skills>");
    assert_eq!(lines[1], "<skill>");
    assert_eq!(lines[2], "<name>");
    assert_eq!(lines[3], "my-skill");
    assert_eq!(lines[4], "</name>");
}

#[test]
fn test_skill_without_location() {
    let source = SkillSource::Found {
        content: "---\nname: my-skill\ndescription: A test skill\n---\nBody\n".to_string(),
        location: None,
    };
    let result = to_prompt(&vec![source]).unwrap();
    assert!(!result.contains("<location>"));
    assert!(result.contains("<name>"));
}

#[test]
fn test_missing_descriptor_aborts_render() {
    let sources = vec![
        SkillSource::NoDescriptor {
            dir: "skills/absent".to_string(),
        },
        found("my-skill", "A test skill"),
    ];
    let err = to_prompt(&sources).unwrap_err();
    assert_eq!(err.message(), "SKILL.md not found in skills/absent");
}

#[test]
fn test_unreadable_descriptor_aborts_render() {
    let sources = vec![SkillSource::Unreadable {
        error: "permission denied".to_string(),
    }];
    let err = to_prompt(&sources).unwrap_err();
    assert_eq!(err.message(), "IO error: permission denied");
}

#[test]
fn test_first_failure_wins() {
    let sources = vec![
        found("good-skill", "A good skill"),
        SkillSource::Found {
            content: "no frontmatter here".to_string(),
            location: None,
        },
        SkillSource::NoDescriptor {
            dir: "later".to_string(),
        },
    ];
    let err = to_prompt(&sources).unwrap_err();
    assert!(err.message().contains("must start with YAML frontmatter"));
}
