pub mod simple_command_ui;
