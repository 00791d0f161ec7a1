# HugeSyslogs

Testes de desempenho e balanceamento de um relay rsyslog em round-robin: geradores de
carga falam com o relay por TCP ou UDP, o relay reparte as mensagens entre os receptores,
e um relatório diz quanto chegou, em quanto tempo e com que balanceamento.

- `src/` é a biblioteca, escrita e provada em Verus. Os contratos das funções dizem o que
  elas devolvem ou mudam; os lemas públicos de nome `lei_*` dizem o que vale do conjunto.
- `app/` é o programa em volta dela: linha de comando, arquivos, sockets, threads e o podman.
- `tests/` exercita a biblioteca com valores concretos.

## Módulos

| Módulo | O que faz |
| --- | --- |
| `config`, `duracao`, `grafias`, `plano`, `proporcao` | configuração, validação e plano de carga |
| `gerador` | ritmo das threads, quadros syslog e relatório de cada gerador |
| `metricas`, `latencias`, `tabela`, `json` | leitura dos logs e agregação |
| `percurso` | do quadro enviado à linha gravada e de volta |
| `relatorio`, `invariancias` | resumo, tabelas e dados do relatório JSON, e o que não os muda |
| `orquestrador`, `podman`, `certs`, `rsyslog`, `balanceador` | ciclo do teste e o que cada container recebe |
| `reais`, `arredonda`, `leitura`, `numerais` | ponto flutuante de 64 bits sobre inteiros: contas, leitura e escrita |
| `decimal`, `inteiros`, `texto`, `bytes` | numerais decimais e texto |

Números de ponto flutuante são guardados pelo seu padrão de bits (`Real`); `f64::to_bits` e
`f64::from_bits` convertem de e para os da linguagem.
