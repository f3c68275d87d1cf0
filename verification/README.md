# repairers

A small simulation: four repairers walk a square matrix of houses, repair the
broken ones and leave notes for each other in a shared, memory-mapped file.
A master process sets up the shared files and shows the matrix while the
repairers work in lock-step rounds (decide, wait, execute, wait).

- `src/` is the verified library (Verus): the moves and walking algorithms,
  the notes, the byte layout of the matrix file, the round counters, the
  decision and execution of a round, and the setup of a fresh matrix.
- `app/` is the program around it: file mapping, encoding of the matrix,
  the waiting loops, printing and process handling.
- `tests/` runs the library on concrete values.
