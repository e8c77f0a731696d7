pub mod text;
pub mod biomechanics;
pub mod generation_context;
pub mod gemini;
pub mod commands;
pub mod corpus;
pub mod profiles;
pub mod guardrail;
pub mod multi_section;
pub mod credentials;
