pub mod text;
pub mod command_line;
pub mod studio;
pub mod plugin;
pub mod demo_plugin;
pub mod plugin_template;
pub mod recent;
pub mod seqs;
pub mod layout;
pub mod storm_sewer;
pub mod color;
pub mod tools;
pub mod ordinate_dim;
pub mod rotate;
pub mod alias_editor;
pub mod properties;
pub mod plot;
pub mod grid;
pub mod dim_override;
pub mod annotative;
pub mod storm_commands;
pub mod interaction;
pub mod annotation_context;
pub mod tiles;
