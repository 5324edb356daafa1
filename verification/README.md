# ironcalc_base

The logic of a spreadsheet engine's built-in functions, written in Verus:
each function's result, and each error it returns, is stated in its contract
and proved.

- `src/` is the verified library. The array functions (TAKE, DROP, EXPAND,
  CHOOSECOLS, HSTACK, TOCOL, WRAPROWS, SORT, SORTBY, UNIQUE, FILTER, ...) work
  on arrays of any value type; lookups (INDEX, OFFSET, XMATCH, VLOOKUP, ...),
  ADDRESS, ROMAN and ARABIC, GCD and LCM, the counting functions, FREQUENCY,
  MODE, RANK, LARGE and SMALL, the argument reading of VAR, AVEDEV, DEVSQ,
  COUNTIFS and the *IFS functions, the order of values of different kinds
  (numbers < texts < booleans < errors, texts without regard to case), the
  wildcard patterns of XMATCH and MATCH, and the checks of the matrix
  functions are here too. Values are read through small enums (cell kinds, sort keys,
  order keys of numbers) so that no floating-point number enters the proofs.
  The public `law_*` proof functions state properties that relate several
  functions or calls (TRANSPOSE twice, WRAPCOLS against WRAPROWS, TAKE after
  EXPAND, the counts of FREQUENCY and COUNTIFS, ARABIC after ROMAN in the
  classic form, XMATCH's binary search on sorted values, ...).
- `app/` holds what the proofs cannot: the `f64` arithmetic of MMULT,
  MDETERM, MINVERSE, SEQUENCE, SUMPRODUCT, MULTINOMIAL, VAR, AVEDEV, DEVSQ,
  SUMX2MY2 and the least-squares fits of LINEST, LOGEST, TREND and GROWTH
  (whose arguments the library reads), the random numbers
  of RAND, RANDBETWEEN and RANDARRAY, and the conversions between spreadsheet
  values and the library's types.
- `tests/` runs the library on concrete values.

Regular expressions (XMATCH's regex and wildcard modes) are compiled and
matched by the `regex` crate, whose behaviour the library names rather than
restates; so is the lower-casing of texts, which comes from
`str::to_lowercase`.
