pub mod datasource;
