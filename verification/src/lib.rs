//! Validation of CSV files.
pub mod cadena;
pub mod caracteres;
pub mod codificacion;
pub mod consulta;
pub mod esquema;
pub mod reporte;
pub mod tabla;
pub mod texto;
pub mod unicode;
