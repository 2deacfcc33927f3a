//! Library for parsing, validating, and rendering skill descriptors:
//! directories holding a `SKILL.md` document whose YAML header declares the
//! skill's name, description, and optional properties.
//!
//! The three exposed operations are `validate` (a directory's observed
//! state against the fixed rule set), `read_properties` (a document's text
//! into a typed record), and `to_prompt` (skill sources into one
//! `<available_skills>` markup block).

pub mod error;
pub mod models;
pub mod parser;
pub mod prompt;
pub mod text;
pub mod validator;

pub use error::SkillError;
pub use models::{DictValue, SkillProperties};
pub use parser::{parse_frontmatter, read_properties, FmValue, FrontmatterMap, MetaValue};
pub use prompt::{html_escape, render_skill_block, to_prompt, SkillSource};
pub use validator::{
    is_allowed_field, validate, validate_compatibility, validate_description, validate_metadata,
    validate_name, DirectoryProbe,
};
