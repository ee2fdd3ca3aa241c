pub mod cache_policy;
pub mod capability_router;
pub mod domain_language;
pub mod domain_model;
pub mod intent_extractor;
pub mod json;
pub mod llm_interface;
pub mod loan_orchestrator;
pub mod source_text;
pub mod step_outputs;
pub mod supervisor;
pub mod text;
pub mod workflow_laws;
