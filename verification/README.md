# accessc

An OpenSSH access compiler: it validates an access policy, decides access
requests against it, and plans short-lived certificate issuance (the
`ssh-keygen` command, the plan and its audit receipt) without signing
anything.

- `src/` is the verified library (Verus):
  - `policy.rs`: the policy model, the atom and duration grammars, and
    `PolicyFile::validate`;
  - `evaluator.rs`: requests, decisions and `evaluate`;
  - `plan.rs`: issuance plans and audit receipts;
  - `text.rs`: string equality, decimal rendering and the file-name
    sanitizer;
  - `laws.rs`: properties that span these functions (deny overrides allow,
    grants are justified, validated policies can always be evaluated, ...).
- `app/` is the command-line program: YAML loading, error messages,
  argument parsing and writing the artifacts.
- `tests/` runs the library on concrete policies and requests.
