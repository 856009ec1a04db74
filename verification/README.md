# flexi_csv

A command-line tool that slices a CSV file into smaller files of a fixed
number of rows and transforms the values of chosen columns (upper case,
lower case, accent removal, title case).

- `src/` is the verified library (Verus):
  - `args` – the command-line arguments and the plan of transformations they ask for;
  - `transform` – what each transformation does to a column of values;
  - `table` – tables of named columns and the application of a plan to them;
  - `slicing` – how many output files, and which rows go into each;
  - `output` – output file names, the shared queue of file numbers, the
    delimiter byte and the validation of the input file;
  - `reader` – the decisions of the chunked CSV reader;
  - `threads` – the number of worker threads.
- `app/` is the executable around it: argument parsing, reading and writing
  CSV files with polars, threads and progress bars.
- `tests/` runs the library on concrete values.
