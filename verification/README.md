# validador_csv

Validation of CSV files. The library decodes a file, reads its table, reports on its names, its
columns, its rows and the characters that hint at damage, and then works on the table: it fetches
rows, removes a column, renames columns. Its functions carry contracts that Verus proves.

- `src/texto.rs`, `src/unicode.rs`: operations on text.
- `src/cadena.rs`: the names of files and columns, what is wrong with them, and better ones.
- `src/caracteres.rs`: characters that hint at damage, and the lines that hold them.
- `src/codificacion.rs`: guessing the encoding of a file, and decoding it.
- `src/tabla.rs`: the model of a table, and the calls into `polars` and `serde_json`.
- `src/esquema.rs`: what is found of each column.
- `src/reporte.rs`: reading a file and reporting on it.
- `src/consulta.rs`: work on the table that was read.
- `app/`: the desktop application around the library.
